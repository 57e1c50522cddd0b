use rch::api::scraper::{
    catalog_asset, catalog_files, db_claim_catalog_scrape, db_enqueue_catalog_scrape,
    db_load_scrape_jobs, db_load_scrape_proposals, db_parse_catalog, db_run_catalog_scrape, depth,
    finish_catalog_scrape, input_revision, input_revision_from_snapshot, lone_snapshot,
    proposal_row, proposal_state_filter, run_catalog_pass, settle_catalog_pass, source_type_of,
    state_name, CatalogAsset, NameRoleProposal, ParseState, ScrapeMaterializationRow,
};
use rch::catalog_context::{
    basename, has_archive_extension, is_catalog_bucket, normalize_entry, to_snapshot,
    CatalogIndex, LibraryIndexRow,
};

fn row(
    id: &str,
    parent_id: Option<&str>,
    name: &str,
    path: &str,
    entry_type: &str,
) -> LibraryIndexRow {
    LibraryIndexRow {
        id: id.into(),
        source_id: "s115".into(),
        parent_id: parent_id.map(str::to_owned),
        name: name.into(),
        path: path.into(),
        entry_type: entry_type.into(),
        size: None,
        modified_at: None,
        cover_path: None,
        hash: None,
        updated_at: 1,
        deleted: false,
    }
}

#[test]
fn flattened_provider_name_becomes_filename_and_bucket_is_removed() {
    let entry = || {
        row(
            "file",
            Some("work"),
            "日漫/作品名/[Alice Crazy] Title.zip",
            "日漫/作品名/[Alice Crazy] Title.zip",
            "file",
        )
    };
    let index = CatalogIndex::collect(vec![
        row("root", None, "日漫", "日漫", "dir"),
        row("work", Some("root"), "作品名", "日漫/作品名", "dir"),
        entry(),
        row("sib", Some("work"), "10.zip", "日漫/作品名/10.zip", "file"),
    ]);
    let context = normalize_entry(&entry(), "asset", "115", &index, 8);
    assert_eq!(context.filename, "[Alice Crazy] Title.zip");
    assert_eq!(context.ancestor_dirs, vec!["作品名"]);
    assert_eq!(context.parent_siblings, vec!["10.zip"]);
    let snapshot = to_snapshot(&context);
    assert_eq!(snapshot.filename, context.filename);
    assert_eq!(snapshot.parent_siblings, vec!["10.zip"]);
}

#[test]
fn current_file_is_not_sibling_even_when_name_is_duplicated() {
    let entry = row("a", Some("p"), "same.zip", "作品/same.zip", "file");
    let index = CatalogIndex::collect(vec![
        row("p", None, "作品", "作品", "dir"),
        row("a", Some("p"), "same.zip", "作品/same.zip", "file"),
        row("b", Some("p"), "same.zip", "作品/same.zip", "file"),
    ]);
    let context = normalize_entry(&entry, "asset", "local", &index, 8);
    assert!(context.parent_siblings.is_empty());
}

#[test]
fn the_last_row_of_an_id_counts() {
    let index = CatalogIndex::collect(vec![
        row("a", None, "old", "old", "dir"),
        row("b", None, "b", "b", "dir"),
        row("a", None, "new", "new", "dir"),
    ]);
    assert_eq!(index.rows.len(), 2);
    let at = index.find("a").unwrap();
    assert_eq!(index.rows[at].name, "new");
    assert!(index.find("c").is_none());
}

#[test]
fn chains_end_at_loops_files_and_the_depth() {
    let index = CatalogIndex::collect(vec![
        row("a", Some("b"), "A", "A", "dir"),
        row("b", Some("a"), "B", "B", "dir"),
        row("f", None, "F", "F", "file"),
    ]);
    let in_loop = row("x", Some("a"), "x.zip", "x.zip", "file");
    assert_eq!(
        normalize_entry(&in_loop, "k", "local", &index, 8).ancestor_dirs,
        vec!["A", "B"]
    );
    assert_eq!(
        normalize_entry(&in_loop, "k", "local", &index, 1).ancestor_dirs,
        vec!["A"]
    );
    let below_file = row("y", Some("f"), "y.zip", "y.zip", "file");
    assert!(normalize_entry(&below_file, "k", "local", &index, 8)
        .ancestor_dirs
        .is_empty());
}

#[test]
fn directories_that_repeat_the_file_take_no_room() {
    let index = CatalogIndex::collect(vec![
        row("flat", Some("work"), "Title.ZIP", "Title.ZIP", "dir"),
        row("work", None, "Work", "Work", "dir"),
    ]);
    let entry = row("x", Some("flat"), "title.zip", "title.zip", "file");
    assert_eq!(
        normalize_entry(&entry, "k", "local", &index, 1).ancestor_dirs,
        vec!["Work"]
    );
}

#[test]
fn names_fall_back_to_paths() {
    assert_eq!(basename(" a\\b / c.zip ", "p"), "c.zip");
    assert_eq!(basename("  ", "x/y.zip"), "y.zip");
    assert_eq!(basename("x/", "x/y.zip"), "y.zip");
    assert!(has_archive_extension(" A.CB7 "));
    assert!(!has_archive_extension("a.pdf"));
    assert!(is_catalog_bucket(" Manga ", "local"));
    assert!(is_catalog_bucket("夸克网盘", "quark"));
    assert!(!is_catalog_bucket("夸克网盘", "local"));
    assert!(!is_catalog_bucket("作品", "115"));
}

// ------------------------------------------------------------------
// Proposals
// ------------------------------------------------------------------

fn proposal(state: ParseState) -> NameRoleProposal {
    NameRoleProposal {
        title: Some("Title".into()),
        authors: vec!["A \"x\"".into(), "作者".into()],
        provider: None,
        volume: None,
        chapter: Some("10".into()),
        state,
        rule_version: "catalog-rules-v3".into(),
        evidence_json: None,
        conflicts_json: Some("[1]".into()),
        semantic_json: None,
    }
}

#[test]
fn proposals_are_stored_with_their_fallbacks() {
    let snapshot = lone_snapshot("book".into(), "f.zip".into(), vec!["d".into()]);
    let stored = proposal_row(&snapshot, &proposal(ParseState::Ready), "asset", "s", "/p", "rev", 9);
    assert_eq!(stored.authors_json, "[\"A \\\"x\\\"\",\"作者\"]");
    assert_eq!(stored.evidence_json, "[]");
    assert_eq!(stored.conflicts_json, "[1]");
    assert_eq!(stored.semantic_json, "{}");
    assert_eq!(stored.state, "ready");
    assert_eq!(stored.materialization_status, "pending");
    assert_eq!(stored.rule_version, "catalog-rules-v3");
    let shown = db_load_scrape_proposals(&vec![(stored, None)]);
    assert_eq!(shown[0].materialization_added_tags_json, "[]");
    assert_eq!(shown[0].updated_at, 9);
}

#[test]
fn texts_are_escaped_in_json() {
    let snapshot = lone_snapshot("book".into(), "f.zip".into(), Vec::new());
    let mut odd = proposal(ParseState::Ready);
    odd.authors = vec!["\\ \u{8}\t\n\u{c}\r\u{1}\u{1f}\u{7f}/é".into(), String::new()];
    let stored = proposal_row(&snapshot, &odd, "asset", "s", "/p", "rev", 9);
    assert_eq!(
        stored.authors_json,
        "[\"\\\\ \\b\\t\\n\\f\\r\\u0001\\u001f\u{7f}/é\",\"\"]"
    );
    let read: Vec<String> = serde_json::from_str(&stored.authors_json).unwrap();
    assert_eq!(read, odd.authors);
    odd.authors = Vec::new();
    assert_eq!(proposal_row(&snapshot, &odd, "a", "s", "/p", "r", 9).authors_json, "[]");
}

#[test]
fn semantic_projection_round_trips_through_scrape_row() {
    let snapshot = lone_snapshot(
        "fixture/dlsite".into(),
        "[RJ01234567][Circle (Artist)] Title 10续 [中国翻訳].zip".into(),
        Vec::new(),
    );
    let parsed = "{\"title\":\"Title\",\"chapter\":\"10\",\"chapter_relation\":\"continuation\",\
        \"external_id_candidates\":[{\"raw\":\"RJ01234567\"}],\
        \"creators\":[{\"role\":\"circle\"},{\"role\":\"artist\"}],\"authors\":[\"Artist\"],\
        \"resource_language\":\"zh\",\"translation_state\":\"translated\",\
        \"translation_method\":null}";
    let mut proposal = proposal(ParseState::Ready);
    proposal.authors = vec!["Artist".into()];
    proposal.semantic_json = Some(parsed.into());
    let row = proposal_row(
        &snapshot,
        &proposal,
        "asset|source|fixture",
        "source",
        "/library/file.zip",
        &input_revision_from_snapshot(&snapshot),
        9,
    );
    let semantic: serde_json::Value = serde_json::from_str(&row.semantic_json).unwrap();
    assert_eq!(semantic["title"], "Title");
    assert_eq!(semantic["chapter"], "10");
    assert_eq!(semantic["chapter_relation"], "continuation");
    assert_eq!(semantic["external_id_candidates"][0]["raw"], "RJ01234567");
    assert_eq!(semantic["creators"][0]["role"], "circle");
    assert_eq!(semantic["creators"][1]["role"], "artist");
    let authors: serde_json::Value = serde_json::from_str(&row.authors_json).unwrap();
    assert_eq!(semantic["authors"], authors);
    assert_eq!(row.authors_json, "[\"Artist\"]");
    assert_eq!(semantic["resource_language"], "zh");
    assert_eq!(semantic["translation_state"], "translated");
    assert!(semantic["translation_method"].is_null());
    assert_eq!(row.rule_version, "catalog-rules-v3");
}

#[test]
fn lone_names_are_shown_under_their_book() {
    let snapshot = lone_snapshot("book".into(), "f.zip".into(), vec!["d".into(), "e".into()]);
    let applied = Some(ScrapeMaterializationRow {
        applied_fields_json: "[\"title\"]".into(),
        added_tags_json: "[]".into(),
        skipped_fields_json: "[]".into(),
    });
    let shown = db_parse_catalog(&snapshot, &proposal(ParseState::Partial), &applied, 3);
    assert_eq!(shown.asset_key, "catalog|book");
    assert_eq!(shown.path, "book");
    assert_eq!(shown.source_id, "");
    assert_eq!(shown.state, "partial");
    assert_eq!(shown.materialization_applied_fields_json, "[\"title\"]");
    assert_eq!(shown.input_revision, input_revision_from_snapshot(&snapshot));
    assert_eq!(
        shown.input_revision,
        "dae447114affbd1ffe696e36ab28c209db7279bc0655cbdf59025a271d954eb6"
    );
}

#[test]
fn revisions_do_not_depend_on_the_order_of_siblings() {
    let entry = row("id", None, "n", "p", "file");
    let a = vec!["b".to_string(), "a".to_string()];
    let b = vec!["a".to_string(), "b".to_string()];
    let none: Vec<String> = Vec::new();
    assert_eq!(input_revision(&entry, &none, &a), input_revision(&entry, &none, &b));
    assert_ne!(input_revision(&entry, &a, &none), input_revision(&entry, &b, &none));
}

#[test]
fn small_rules_of_a_run() {
    assert_eq!((depth(-3), depth(5), depth(99)), (1, 5, 8));
    assert_eq!(state_name(ParseState::Ambiguous), "ambiguous");
    assert_eq!(state_name(ParseState::Unmatched), "unmatched");
    assert_eq!(proposal_state_filter("  "), None);
    assert_eq!(proposal_state_filter("ready"), Some("ready".to_string()));
    let types = vec![("a".to_string(), "quark".to_string())];
    assert_eq!(source_type_of(&types, "a"), "quark");
    assert_eq!(source_type_of(&types, "b"), "unknown");
    let job = db_run_catalog_scrape("after sync!".into(), "v1".into(), -5, 7);
    assert_eq!(job.id, "scrape--5-after-sync-");
    assert_eq!((job.status.as_str(), job.accounting_status.as_str()), ("running", "pending"));
    assert_eq!(job.started_at, Some(7));
}

fn asset(id: &str, key: &str, path: &str) -> CatalogAsset {
    let index = CatalogIndex::collect(Vec::new());
    catalog_asset(&row(id, None, path, path, "file"), key, "local", &index, 4)
}

#[test]
fn a_pass_accounts_for_every_file() {
    let rows = vec![
        row("a", None, "a.zip", "a.zip", "file"),
        row("d", None, "d", "d", "dir"),
        row("b", None, "b.zip", "b.zip", "file"),
    ];
    assert_eq!(catalog_files(&rows), vec![0, 2]);
    let mut job = db_run_catalog_scrape("manual".into(), "v1".into(), 1, 1);
    let assets = vec![asset("a", "ka", "x.zip"), asset("b", "kb", "x.cbz")];
    let proposals = vec![proposal(ParseState::Ready), proposal(ParseState::Unmatched)];
    let batch = run_catalog_pass(&mut job, &assets, &proposals, "v1", 5).ok().unwrap();
    assert_eq!((job.total, job.processed, job.ready, job.unmatched), (2, 2, 1, 1));
    assert_eq!((job.unique_assets, job.asset_collision_count), (2, 0));
    assert_eq!(job.book_group_collision_count, 1);
    assert_eq!(batch.queue[1].asset_key, "kb");
    assert_eq!((batch.queue[1].status.as_str(), batch.queue[1].next_run_at), ("queued", 5));
    assert_eq!(batch.proposals[0].input_revision, assets[0].input_revision);
    assert_eq!(
        settle_catalog_pass(&mut job, 1, 6),
        Err("catalog accounting mismatch: input_assets=2, proposals_written=1".to_string())
    );
    assert_eq!(job.accounting_status, "proposal-count-mismatch");
    assert_eq!(settle_catalog_pass(&mut job, 2, 6), Ok(()));
    assert_eq!(job.accounting_status, "pass");
    let shown = finish_catalog_scrape(&mut job, Ok(()), 7, 8).ok().unwrap();
    assert_eq!((shown.status.as_str(), shown.finished_at), ("succeeded", Some(7)));
    assert_eq!(db_load_scrape_jobs(&vec![job])[0].updated_at, 8);
}

#[test]
fn assets_that_share_a_key_fail_the_pass() {
    let mut job = db_run_catalog_scrape("manual".into(), "v1".into(), 1, 1);
    let assets = vec![
        asset("a", "k", "x.zip"),
        asset("b", "k", "y.zip"),
        asset("c", "l", "z.zip"),
    ];
    let proposals = vec![
        proposal(ParseState::Ready),
        proposal(ParseState::Partial),
        proposal(ParseState::Ambiguous),
    ];
    let text = run_catalog_pass(&mut job, &assets, &proposals, "v1", 5).err().unwrap();
    assert_eq!(
        text,
        "catalog accounting collision: 3 physical assets mapped to 2 asset keys"
    );
    assert_eq!(job.accounting_status, "asset-collision");
    assert_eq!(job.asset_collision_count, 1);
    let told = finish_catalog_scrape(&mut job, Err(text.clone()), 7, 8).err().unwrap();
    assert_eq!(told, text);
    assert_eq!((job.status.as_str(), job.error.as_str()), ("failed", text.as_str()));
}

#[test]
fn claimed_work_is_shown() {
    let work = db_enqueue_catalog_scrape(
        "a".into(),
        "b".into(),
        "s".into(),
        "/p".into(),
        "r".into(),
        "v".into(),
        "t".into(),
        4,
    );
    assert_eq!((work.id, work.attempt, work.created_at), (0, 0, 4));
    let shown = db_claim_catalog_scrape(&Ok(Some(work))).unwrap();
    assert_eq!((shown.path.as_str(), shown.trigger.as_str()), ("/p", "t"));
    assert!(db_claim_catalog_scrape(&Ok(None)).is_none());
    assert!(db_claim_catalog_scrape(&Err("x".into())).is_none());
}
