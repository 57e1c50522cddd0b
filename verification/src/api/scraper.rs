//! Reading titles and authors out of the catalog.
//!
//! A pass works on stored rows alone: it never asks a source for anything.

use vstd::prelude::*;
use vstd::string::*;

use crate::catalog_context::{
    is_context, normalize_entry, to_snapshot, CatalogAssetContext, CatalogIndex, CatalogSnapshot,
    LibraryIndexRow,
};
use crate::digest::{sha256_of_text, sha256_text};
use crate::json::{json_of_texts, texts_to_json};
use crate::number::{dec_i64, decimal_int, law_signed_decimal_reads_back};
use crate::order::{law_sorting_forgets_the_order, sort_texts, sorted_texts};
use crate::text::{
    add_unique, all_differ, blank, cat2, cat3, cat4, cat5, chars_of, is_blank, join, joined,
    lemma_set_of_len, list_has, listed, opt_text, or_empty, same, set_of, string_of,
    text_or_empty, texts,
};

verus! {

// ------------------------------------------------------------------
// Rows
// ------------------------------------------------------------------

/// A run as it is stored.
pub struct ScrapeJobRow {
    pub id: String,
    pub trigger: String,
    pub status: String,
    pub rule_version: String,
    pub total: i64,
    pub processed: i64,
    pub ready: i64,
    pub ambiguous: i64,
    pub partial: i64,
    pub unmatched: i64,
    pub input_assets: i64,
    pub unique_assets: i64,
    pub proposals_written: i64,
    pub asset_collision_count: i64,
    pub book_group_collision_count: i64,
    pub accounting_status: String,
    pub error: String,
    pub requested_at: i64,
    pub started_at: Option<i64>,
    pub finished_at: Option<i64>,
    pub updated_at: i64,
}

/// A run as it is shown.
pub struct ScrapeRunDto {
    pub id: String,
    pub trigger: String,
    pub status: String,
    pub rule_version: String,
    pub total: i64,
    pub processed: i64,
    pub ready: i64,
    pub ambiguous: i64,
    pub partial: i64,
    pub unmatched: i64,
    pub input_assets: i64,
    pub unique_assets: i64,
    pub proposals_written: i64,
    pub asset_collision_count: i64,
    pub book_group_collision_count: i64,
    pub accounting_status: String,
    pub error: String,
    pub requested_at: i64,
    pub started_at: Option<i64>,
    pub finished_at: Option<i64>,
    pub updated_at: i64,
}

/// A piece of work as it is stored.
pub struct ScrapeQueueRow {
    pub id: i64,
    pub asset_key: String,
    pub book_key: String,
    pub source_id: String,
    pub path: String,
    pub input_revision: String,
    pub rule_version: String,
    pub trigger: String,
    pub status: String,
    pub attempt: i64,
    pub next_run_at: i64,
    pub last_error: Option<String>,
    pub created_at: i64,
    pub updated_at: i64,
}

/// A piece of work as it is shown.
pub struct ScrapeQueueDto {
    pub id: i64,
    pub asset_key: String,
    pub book_key: String,
    pub source_id: String,
    pub path: String,
    pub input_revision: String,
    pub rule_version: String,
    pub trigger: String,
    pub status: String,
    pub attempt: i64,
    pub next_run_at: i64,
    pub last_error: Option<String>,
    pub created_at: i64,
    pub updated_at: i64,
}

/// A proposal as it is stored.
pub struct ScrapeProposalRow {
    pub asset_key: String,
    pub book_key: String,
    pub source_id: String,
    pub path: String,
    pub filename: String,
    pub title: Option<String>,
    pub authors_json: String,
    pub provider: Option<String>,
    pub volume: Option<String>,
    pub chapter: Option<String>,
    pub state: String,
    pub evidence_json: String,
    pub conflicts_json: String,
    pub semantic_json: String,
    pub rule_version: String,
    pub input_revision: String,
    pub materialization_status: String,
    pub materialization_error: String,
    pub materialized_at: Option<i64>,
    pub updated_at: i64,
}

/// A proposal as it is shown.
pub struct ScrapeProposalDto {
    pub asset_key: String,
    pub book_key: String,
    pub source_id: String,
    pub path: String,
    pub filename: String,
    pub title: Option<String>,
    pub authors_json: String,
    pub provider: Option<String>,
    pub volume: Option<String>,
    pub chapter: Option<String>,
    pub state: String,
    pub evidence_json: String,
    pub conflicts_json: String,
    pub semantic_json: String,
    pub rule_version: String,
    pub input_revision: String,
    pub materialization_status: String,
    pub materialization_error: String,
    pub materialized_at: Option<i64>,
    pub materialization_applied_fields_json: String,
    pub materialization_added_tags_json: String,
    pub materialization_skipped_fields_json: String,
    pub updated_at: i64,
}

/// What became of a proposal that was applied.
pub struct ScrapeMaterializationRow {
    pub applied_fields_json: String,
    pub added_tags_json: String,
    pub skipped_fields_json: String,
}

/// How sure the parser is of a name.
#[derive(Clone, Copy, PartialEq, Eq, Structural, Debug)]
pub enum ParseState {
    Ready,
    Partial,
    Ambiguous,
    Unmatched,
}

/// What the parser made of a name. The last three hold what it serialised,
/// or nothing where that failed.
pub struct NameRoleProposal {
    pub title: Option<String>,
    pub authors: Vec<String>,
    pub provider: Option<String>,
    pub volume: Option<String>,
    pub chapter: Option<String>,
    pub state: ParseState,
    pub rule_version: String,
    pub evidence_json: Option<String>,
    pub conflicts_json: Option<String>,
    pub semantic_json: Option<String>,
}

// ------------------------------------------------------------------
// Small rules
// ------------------------------------------------------------------

/// How many directories above a file are considered: one to eight.
pub fn depth(value: i64) -> (r: usize)
    ensures
        r == (if value < 1 {
            1
        } else if value > 8 {
            8
        } else {
            value as int
        }),
{
    if value < 1 {
        1
    } else if value > 8 {
        8
    } else {
        value as usize
    }
}

/// The stored name of a state.
pub open spec fn state_text(state: ParseState) -> Seq<char> {
    match state {
        ParseState::Ready => "ready"@,
        ParseState::Partial => "partial"@,
        ParseState::Ambiguous => "ambiguous"@,
        ParseState::Unmatched => "unmatched"@,
    }
}

/// The stored name of a state.
pub fn state_name(state: ParseState) -> (r: &'static str)
    ensures
        r@ == state_text(state),
{
    match state {
        ParseState::Ready => "ready",
        ParseState::Partial => "partial",
        ParseState::Ambiguous => "ambiguous",
        ParseState::Unmatched => "unmatched",
    }
}

/// Whether a character is an ASCII letter or digit.
pub open spec fn is_alphanumeric(c: char) -> bool {
    'a' <= c <= 'z' || 'A' <= c <= 'Z' || '0' <= c <= '9'
}

/// A text with a dash for everything but ASCII letters and digits.
pub open spec fn dashed(s: Seq<char>) -> Seq<char> {
    s.map_values(
        |c: char|
            if is_alphanumeric(c) {
                c
            } else {
                '-'
            },
    )
}

fn with_dashes(s: &str) -> (r: String)
    ensures
        r@ == dashed(s@),
{
    let v = chars_of(s);
    let mut out: Vec<char> = Vec::new();
    let mut i: usize = 0;
    while i < v.len()
        invariant
            v@ == s@,
            i <= v.len(),
            out@ == dashed(s@).take(i as int),
        decreases v.len() - i,
    {
        let c = v[i];
        if (c >= 'a' && c <= 'z') || (c >= 'A' && c <= 'Z') || (c >= '0' && c <= '9') {
            out.push(c);
        } else {
            out.push('-');
        }
        i = i + 1;
        assert(dashed(s@).take(i as int) =~= dashed(s@).take(i - 1).push(dashed(s@)[i - 1]));
    }
    assert(dashed(s@).take(i as int) =~= dashed(s@));
    string_of(&out)
}

/// The text itself, or `fallback`.
pub open spec fn text_or(o: Option<String>, fallback: Seq<char>) -> Seq<char> {
    match o {
        Some(s) => s@,
        None => fallback,
    }
}

fn text_or_else(o: &Option<String>, fallback: &str) -> (r: String)
    ensures
        r@ == text_or(*o, fallback@),
{
    match o {
        Some(s) => s.clone(),
        None => fallback.to_owned(),
    }
}

// ------------------------------------------------------------------
// Revisions
// ------------------------------------------------------------------

/// What the revision of an entry is made from: everything that the parser
/// is given, with the files beside it in a fixed order.
pub open spec fn revision_payload(
    entry: LibraryIndexRow,
    ancestors: Seq<Seq<char>>,
    siblings: Seq<Seq<char>>,
) -> Seq<char> {
    entry.id@ + "|"@ + entry.path@ + "|"@ + entry.name@ + "|"@ + text_or_empty(entry.hash) + "|"@
        + decimal_int(entry.updated_at as int) + "|"@ + joined(ancestors, "\u{1f}"@) + "|"@
        + joined(sorted_texts(siblings), "\u{1f}"@)
}

/// The revision of an entry in its surroundings.
pub fn input_revision(
    entry: &LibraryIndexRow,
    ancestors: &Vec<String>,
    siblings: &Vec<String>,
) -> (r: String)
    ensures
        r@ == sha256_of_text(revision_payload(*entry, texts(ancestors@), texts(siblings@))),
{
    let sorted = sort_texts(siblings);
    let hash = or_empty(&entry.hash);
    let updated = dec_i64(entry.updated_at);
    let above = join(ancestors, "\u{1f}");
    let beside = join(&sorted, "\u{1f}");
    let head = cat5(entry.id.as_str(), "|", entry.path.as_str(), "|", entry.name.as_str());
    let middle = cat5(head.as_str(), "|", hash.as_str(), "|", updated.as_str());
    let payload = cat5(middle.as_str(), "|", above.as_str(), "|", beside.as_str());
    sha256_text(payload.as_str())
}

/// What the revision of a snapshot is made from.
pub open spec fn snapshot_payload(snapshot: CatalogSnapshot) -> Seq<char> {
    snapshot.book_key@ + "|"@ + snapshot.filename@ + "|"@ + joined(
        texts(snapshot.ancestor_dirs@),
        "\u{1f}"@,
    ) + "|"@ + joined(sorted_texts(texts(snapshot.parent_siblings@)), "\u{1f}"@)
}

/// The revision of a snapshot that no entry stands behind.
pub fn input_revision_from_snapshot(snapshot: &CatalogSnapshot) -> (r: String)
    ensures
        r@ == sha256_of_text(snapshot_payload(*snapshot)),
{
    let sorted = sort_texts(&snapshot.parent_siblings);
    let above = join(&snapshot.ancestor_dirs, "\u{1f}");
    let beside = join(&sorted, "\u{1f}");
    let head = cat5(
        snapshot.book_key.as_str(),
        "|",
        snapshot.filename.as_str(),
        "|",
        above.as_str(),
    );
    let payload = cat3(head.as_str(), "|", beside.as_str());
    sha256_text(payload.as_str())
}

/// A revision does not depend on the order in which the files beside an
/// entry are listed.
pub proof fn law_revision_ignores_the_order_of_siblings(
    entry: LibraryIndexRow,
    ancestors: Seq<Seq<char>>,
    siblings: Seq<Seq<char>>,
    reordered: Seq<Seq<char>>,
)
    requires
        siblings.len() <= usize::MAX,
        siblings.to_multiset() == reordered.to_multiset(),
    ensures
        sha256_of_text(revision_payload(entry, ancestors, siblings)) == sha256_of_text(
            revision_payload(entry, ancestors, reordered),
        ),
{
    law_sorting_forgets_the_order(siblings, reordered);
}

// ------------------------------------------------------------------
// Proposals
// ------------------------------------------------------------------

/// Whether `row` stores `proposal` under an asset.
pub open spec fn stores_proposal(
    row: ScrapeProposalRow,
    book_key: Seq<char>,
    filename: Seq<char>,
    proposal: NameRoleProposal,
    asset_key: Seq<char>,
    source_id: Seq<char>,
    path: Seq<char>,
    revision: Seq<char>,
    now: i64,
) -> bool {
    &&& row.asset_key@ == asset_key
    &&& row.book_key@ == book_key
    &&& row.source_id@ == source_id
    &&& row.path@ == path
    &&& row.filename@ == filename
    &&& row.title == proposal.title
    &&& row.authors_json@ == json_of_texts(texts(proposal.authors@))
    &&& row.provider == proposal.provider
    &&& row.volume == proposal.volume
    &&& row.chapter == proposal.chapter
    &&& row.state@ == state_text(proposal.state)
    &&& row.evidence_json@ == text_or(proposal.evidence_json, "[]"@)
    &&& row.conflicts_json@ == text_or(proposal.conflicts_json, "[]"@)
    &&& row.semantic_json@ == text_or(proposal.semantic_json, "{}"@)
    &&& row.rule_version == proposal.rule_version
    &&& row.input_revision@ == revision
    &&& row.materialization_status@ == "pending"@
    &&& row.materialization_error@.len() == 0
    &&& row.materialized_at is None
    &&& row.updated_at == now
}

/// The row of a proposal, not applied yet.
pub fn proposal_row(
    snapshot: &CatalogSnapshot,
    proposal: &NameRoleProposal,
    asset_key: &str,
    source_id: &str,
    path: &str,
    input_revision: &str,
    now: i64,
) -> (r: ScrapeProposalRow)
    ensures
        stores_proposal(
            r,
            snapshot.book_key@,
            snapshot.filename@,
            *proposal,
            asset_key@,
            source_id@,
            path@,
            input_revision@,
            now,
        ),
{
    let authors = texts_to_json(&proposal.authors);
    ScrapeProposalRow {
        asset_key: asset_key.to_owned(),
        book_key: snapshot.book_key.clone(),
        source_id: source_id.to_owned(),
        path: path.to_owned(),
        filename: snapshot.filename.clone(),
        title: proposal.title.clone(),
        authors_json: text_or_else(&authors, "[]"),
        provider: proposal.provider.clone(),
        volume: proposal.volume.clone(),
        chapter: proposal.chapter.clone(),
        state: state_name(proposal.state).to_owned(),
        evidence_json: text_or_else(&proposal.evidence_json, "[]"),
        conflicts_json: text_or_else(&proposal.conflicts_json, "[]"),
        semantic_json: text_or_else(&proposal.semantic_json, "{}"),
        rule_version: proposal.rule_version.clone(),
        input_revision: input_revision.to_owned(),
        materialization_status: "pending".to_owned(),
        materialization_error: String::new(),
        materialized_at: None,
        updated_at: now,
    }
}

/// Whether `dto` shows a stored proposal, with empty lists where it was
/// never applied.
pub open spec fn shows_proposal(
    dto: ScrapeProposalDto,
    row: ScrapeProposalRow,
    applied: Option<ScrapeMaterializationRow>,
) -> bool {
    &&& dto.asset_key == row.asset_key && dto.book_key == row.book_key
    &&& dto.source_id == row.source_id && dto.path == row.path
    &&& dto.filename == row.filename && dto.title == row.title
    &&& dto.authors_json == row.authors_json && dto.provider == row.provider
    &&& dto.volume == row.volume && dto.chapter == row.chapter && dto.state == row.state
    &&& dto.evidence_json == row.evidence_json && dto.conflicts_json == row.conflicts_json
    &&& dto.semantic_json == row.semantic_json && dto.rule_version == row.rule_version
    &&& dto.input_revision == row.input_revision
    &&& dto.materialization_status == row.materialization_status
    &&& dto.materialization_error == row.materialization_error
    &&& dto.materialized_at == row.materialized_at && dto.updated_at == row.updated_at
    &&& match applied {
        Some(m) => {
            &&& dto.materialization_applied_fields_json == m.applied_fields_json
            &&& dto.materialization_added_tags_json == m.added_tags_json
            &&& dto.materialization_skipped_fields_json == m.skipped_fields_json
        },
        None => {
            &&& dto.materialization_applied_fields_json@ == "[]"@
            &&& dto.materialization_added_tags_json@ == "[]"@
            &&& dto.materialization_skipped_fields_json@ == "[]"@
        },
    }
}

/// A stored proposal as it is shown.
pub fn proposal_row_dto(
    row: &ScrapeProposalRow,
    applied: &Option<ScrapeMaterializationRow>,
) -> (r: ScrapeProposalDto)
    ensures
        shows_proposal(r, *row, *applied),
{
    let (fields, tags, skipped) = match applied {
        Some(m) => (
            m.applied_fields_json.clone(),
            m.added_tags_json.clone(),
            m.skipped_fields_json.clone(),
        ),
        None => ("[]".to_owned(), "[]".to_owned(), "[]".to_owned()),
    };
    ScrapeProposalDto {
        asset_key: row.asset_key.clone(),
        book_key: row.book_key.clone(),
        source_id: row.source_id.clone(),
        path: row.path.clone(),
        filename: row.filename.clone(),
        title: row.title.clone(),
        authors_json: row.authors_json.clone(),
        provider: row.provider.clone(),
        volume: row.volume.clone(),
        chapter: row.chapter.clone(),
        state: row.state.clone(),
        evidence_json: row.evidence_json.clone(),
        conflicts_json: row.conflicts_json.clone(),
        semantic_json: row.semantic_json.clone(),
        rule_version: row.rule_version.clone(),
        input_revision: row.input_revision.clone(),
        materialization_status: row.materialization_status.clone(),
        materialization_error: row.materialization_error.clone(),
        materialized_at: row.materialized_at,
        materialization_applied_fields_json: fields,
        materialization_added_tags_json: tags,
        materialization_skipped_fields_json: skipped,
        updated_at: row.updated_at,
    }
}

/// What the parser is given of a name that stands in no catalog.
pub fn lone_snapshot(book_key: String, filename: String, ancestor_dirs: Vec<String>) -> (r:
    CatalogSnapshot)
    ensures
        r.book_key == book_key,
        r.filename == filename,
        r.ancestor_dirs == ancestor_dirs,
        r.parent_siblings@.len() == 0,
{
    CatalogSnapshot { book_key, filename, ancestor_dirs, parent_siblings: Vec::new() }
}

/// The row that a lone name is shown from: it belongs to no source, and the
/// key of its book stands for its path.
pub fn lone_proposal_row(
    snapshot: &CatalogSnapshot,
    proposal: &NameRoleProposal,
    now: i64,
) -> (r: ScrapeProposalRow)
    ensures
        stores_proposal(
            r,
            snapshot.book_key@,
            snapshot.filename@,
            *proposal,
            "catalog|"@ + snapshot.book_key@,
            ""@,
            snapshot.book_key@,
            sha256_of_text(snapshot_payload(*snapshot)),
            now,
        ),
{
    let revision = input_revision_from_snapshot(snapshot);
    let asset_key = cat2("catalog|", snapshot.book_key.as_str());
    proposal_row(
        snapshot,
        proposal,
        asset_key.as_str(),
        "",
        snapshot.book_key.as_str(),
        revision.as_str(),
        now,
    )
}

/// What is shown of a lone name and of what the parser made of it.
pub fn db_parse_catalog(
    snapshot: &CatalogSnapshot,
    proposal: &NameRoleProposal,
    applied: &Option<ScrapeMaterializationRow>,
    now: i64,
) -> (r: ScrapeProposalDto)
    ensures
        exists|row: ScrapeProposalRow|
            shows_proposal(r, row, *applied) && #[trigger] stores_proposal(
                row,
                snapshot.book_key@,
                snapshot.filename@,
                *proposal,
                "catalog|"@ + snapshot.book_key@,
                ""@,
                snapshot.book_key@,
                sha256_of_text(snapshot_payload(*snapshot)),
                now,
            ),
{
    let row = lone_proposal_row(snapshot, proposal, now);
    proposal_row_dto(&row, applied)
}

/// The state that proposals are to have; a blank one asks for all.
pub fn proposal_state_filter(state: &str) -> (r: Option<String>)
    ensures
        opt_text(r) == (if is_blank(state@) {
            None
        } else {
            Some(state@)
        }),
{
    if blank(state) {
        None
    } else {
        Some(state.to_owned())
    }
}

/// The stored proposals as they are shown, each with what became of it.
pub fn db_load_scrape_proposals(
    rows: &Vec<(ScrapeProposalRow, Option<ScrapeMaterializationRow>)>,
) -> (r: Vec<ScrapeProposalDto>)
    ensures
        r.len() == rows.len(),
        forall|i: int| 0 <= i < rows.len() ==> shows_proposal(#[trigger] r@[i], rows@[i].0, rows@[i].1),
{
    let mut out: Vec<ScrapeProposalDto> = Vec::new();
    let mut i: usize = 0;
    while i < rows.len()
        invariant
            i <= rows.len(),
            out.len() == i,
            forall|j: int| 0 <= j < i ==> shows_proposal(#[trigger] out@[j], rows@[j].0, rows@[j].1),
        decreases rows.len() - i,
    {
        out.push(proposal_row_dto(&rows[i].0, &rows[i].1));
        i = i + 1;
    }
    out
}

// ------------------------------------------------------------------
// Runs and the queue
// ------------------------------------------------------------------

/// A stored run as it is shown.
pub open spec fn run_of(row: ScrapeJobRow) -> ScrapeRunDto {
    ScrapeRunDto {
        id: row.id,
        trigger: row.trigger,
        status: row.status,
        rule_version: row.rule_version,
        total: row.total,
        processed: row.processed,
        ready: row.ready,
        ambiguous: row.ambiguous,
        partial: row.partial,
        unmatched: row.unmatched,
        input_assets: row.input_assets,
        unique_assets: row.unique_assets,
        proposals_written: row.proposals_written,
        asset_collision_count: row.asset_collision_count,
        book_group_collision_count: row.book_group_collision_count,
        accounting_status: row.accounting_status,
        error: row.error,
        requested_at: row.requested_at,
        started_at: row.started_at,
        finished_at: row.finished_at,
        updated_at: row.updated_at,
    }
}

/// A stored run as it is shown.
pub fn run_dto(row: &ScrapeJobRow) -> (r: ScrapeRunDto)
    ensures
        r == run_of(*row),
{
    ScrapeRunDto {
        id: row.id.clone(),
        trigger: row.trigger.clone(),
        status: row.status.clone(),
        rule_version: row.rule_version.clone(),
        total: row.total,
        processed: row.processed,
        ready: row.ready,
        ambiguous: row.ambiguous,
        partial: row.partial,
        unmatched: row.unmatched,
        input_assets: row.input_assets,
        unique_assets: row.unique_assets,
        proposals_written: row.proposals_written,
        asset_collision_count: row.asset_collision_count,
        book_group_collision_count: row.book_group_collision_count,
        accounting_status: row.accounting_status.clone(),
        error: row.error.clone(),
        requested_at: row.requested_at,
        started_at: row.started_at,
        finished_at: row.finished_at,
        updated_at: row.updated_at,
    }
}

/// The stored runs as they are shown.
pub fn db_load_scrape_jobs(rows: &Vec<ScrapeJobRow>) -> (r: Vec<ScrapeRunDto>)
    ensures
        r.len() == rows.len(),
        forall|i: int| 0 <= i < rows.len() ==> #[trigger] r@[i] == run_of(rows@[i]),
{
    let mut out: Vec<ScrapeRunDto> = Vec::new();
    let mut i: usize = 0;
    while i < rows.len()
        invariant
            i <= rows.len(),
            out.len() == i,
            forall|j: int| 0 <= j < i ==> #[trigger] out@[j] == run_of(rows@[j]),
        decreases rows.len() - i,
    {
        out.push(run_dto(&rows[i]));
        i = i + 1;
    }
    out
}

/// Whether `row` is new work, due at once.
pub open spec fn is_new_work(
    row: ScrapeQueueRow,
    asset_key: Seq<char>,
    book_key: Seq<char>,
    source_id: Seq<char>,
    path: Seq<char>,
    revision: Seq<char>,
    rule_version: Seq<char>,
    trigger: Seq<char>,
    now: i64,
) -> bool {
    &&& row.id == 0 && row.asset_key@ == asset_key && row.book_key@ == book_key
    &&& row.source_id@ == source_id && row.path@ == path && row.input_revision@ == revision
    &&& row.rule_version@ == rule_version && row.trigger@ == trigger && row.status@ == "queued"@
    &&& row.attempt == 0 && row.next_run_at == now && row.last_error is None
    &&& row.created_at == now && row.updated_at == now
}

/// The row that new work is stored as.
pub fn db_enqueue_catalog_scrape(
    asset_key: String,
    book_key: String,
    source_id: String,
    path: String,
    input_revision: String,
    rule_version: String,
    trigger: String,
    now: i64,
) -> (r: ScrapeQueueRow)
    ensures
        is_new_work(
            r,
            asset_key@,
            book_key@,
            source_id@,
            path@,
            input_revision@,
            rule_version@,
            trigger@,
            now,
        ),
{
    ScrapeQueueRow {
        id: 0,
        asset_key,
        book_key,
        source_id,
        path,
        input_revision,
        rule_version,
        trigger,
        status: "queued".to_owned(),
        attempt: 0,
        next_run_at: now,
        last_error: None,
        created_at: now,
        updated_at: now,
    }
}

/// A piece of work as it is shown.
pub open spec fn queue_of(row: ScrapeQueueRow) -> ScrapeQueueDto {
    ScrapeQueueDto {
        id: row.id,
        asset_key: row.asset_key,
        book_key: row.book_key,
        source_id: row.source_id,
        path: row.path,
        input_revision: row.input_revision,
        rule_version: row.rule_version,
        trigger: row.trigger,
        status: row.status,
        attempt: row.attempt,
        next_run_at: row.next_run_at,
        last_error: row.last_error,
        created_at: row.created_at,
        updated_at: row.updated_at,
    }
}

/// A piece of work as it is shown.
pub fn queue_dto(row: &ScrapeQueueRow) -> (r: ScrapeQueueDto)
    ensures
        r == queue_of(*row),
{
    ScrapeQueueDto {
        id: row.id,
        asset_key: row.asset_key.clone(),
        book_key: row.book_key.clone(),
        source_id: row.source_id.clone(),
        path: row.path.clone(),
        input_revision: row.input_revision.clone(),
        rule_version: row.rule_version.clone(),
        trigger: row.trigger.clone(),
        status: row.status.clone(),
        attempt: row.attempt,
        next_run_at: row.next_run_at,
        last_error: row.last_error.clone(),
        created_at: row.created_at,
        updated_at: row.updated_at,
    }
}

/// What a claim gives its caller: nothing where the store failed or held no
/// work that is due.
pub fn db_claim_catalog_scrape(claimed: &Result<Option<ScrapeQueueRow>, String>) -> (r: Option<
    ScrapeQueueDto,
>)
    ensures
        r == (match *claimed {
            Ok(Some(row)) => Some(queue_of(row)),
            _ => None,
        }),
{
    match claimed {
        Ok(Some(row)) => Some(queue_dto(row)),
        _ => None,
    }
}

// ------------------------------------------------------------------
// A pass over the catalog
// ------------------------------------------------------------------

/// The id of a run.
pub open spec fn job_id(requested_at: int, trigger: Seq<char>) -> Seq<char> {
    "scrape-"@ + decimal_int(requested_at) + "-"@ + dashed(trigger)
}

impl ScrapeJobRow {
    /// Whether nothing has been counted yet.
    pub open spec fn is_fresh(&self) -> bool {
        &&& self.total == 0 && self.processed == 0 && self.ready == 0 && self.ambiguous == 0
        &&& self.partial == 0 && self.unmatched == 0 && self.input_assets == 0
        &&& self.unique_assets == 0 && self.proposals_written == 0
        &&& self.asset_collision_count == 0 && self.book_group_collision_count == 0
    }

    /// Whether a count leaves the rest as it is.
    pub open spec fn same_run(&self, other: ScrapeJobRow) -> bool {
        &&& self.id == other.id && self.trigger == other.trigger && self.status == other.status
        &&& self.rule_version == other.rule_version && self.error == other.error
        &&& self.requested_at == other.requested_at && self.started_at == other.started_at
        &&& self.finished_at == other.finished_at
    }

    /// Whether every tally is the same.
    pub open spec fn same_tallies(&self, other: ScrapeJobRow) -> bool {
        &&& self.total == other.total && self.processed == other.processed
        &&& self.ready == other.ready && self.ambiguous == other.ambiguous
        &&& self.partial == other.partial && self.unmatched == other.unmatched
        &&& self.input_assets == other.input_assets && self.unique_assets == other.unique_assets
        &&& self.asset_collision_count == other.asset_collision_count
        &&& self.book_group_collision_count == other.book_group_collision_count
    }
}

/// The row that a run begins with.
pub fn db_run_catalog_scrape(
    trigger: String,
    rule_version: String,
    requested_at: i64,
    started_at: i64,
) -> (r: ScrapeJobRow)
    ensures
        r.id@ == job_id(requested_at as int, trigger@),
        r.trigger == trigger,
        r.status@ == "running"@,
        r.rule_version == rule_version,
        r.is_fresh(),
        r.accounting_status@ == "pending"@,
        r.error@.len() == 0,
        r.requested_at == requested_at,
        r.started_at == Some(started_at),
        r.finished_at is None,
        r.updated_at == started_at,
{
    let stamp = dec_i64(requested_at);
    let tail = with_dashes(trigger.as_str());
    let id = cat4("scrape-", stamp.as_str(), "-", tail.as_str());
    ScrapeJobRow {
        id,
        trigger,
        status: "running".to_owned(),
        rule_version,
        total: 0,
        processed: 0,
        ready: 0,
        ambiguous: 0,
        partial: 0,
        unmatched: 0,
        input_assets: 0,
        unique_assets: 0,
        proposals_written: 0,
        asset_collision_count: 0,
        book_group_collision_count: 0,
        accounting_status: "pending".to_owned(),
        error: String::new(),
        requested_at,
        started_at: Some(started_at),
        finished_at: None,
        updated_at: started_at,
    }
}

/// The type of a source in a list of ids and types, or `unknown`.
pub open spec fn type_of(types: Seq<(String, String)>, source_id: Seq<char>) -> Seq<char>
    decreases types.len(),
{
    if types.len() == 0 {
        "unknown"@
    } else if types.last().0@ == source_id {
        types.last().1@
    } else {
        type_of(types.drop_last(), source_id)
    }
}

/// The type of a source in a list of ids and types, or `unknown`.
pub fn source_type_of(types: &Vec<(String, String)>, source_id: &str) -> (r: String)
    ensures
        r@ == type_of(types@, source_id@),
{
    let mut n: usize = types.len();
    assert(types@.take(n as int) =~= types@);
    while n > 0
        invariant
            n <= types.len(),
            type_of(types@.take(n as int), source_id@) == type_of(types@, source_id@),
        decreases n,
    {
        assert(types@.take(n as int).drop_last() =~= types@.take(n - 1));
        assert(types@.take(n as int).last() == types@[n - 1]);
        if same(types[n - 1].0.as_str(), source_id) {
            return types[n - 1].1.clone();
        }
        n = n - 1;
    }
    "unknown".to_owned()
}

/// Whether a row is a file that is scraped.
pub open spec fn is_live_file(row: LibraryIndexRow) -> bool {
    !row.deleted && row.entry_type@ == "file"@
}

/// The positions of the live files among the first `n` rows, in order.
pub open spec fn live_files(rows: Seq<LibraryIndexRow>, n: int) -> Seq<int>
    decreases n,
{
    if n <= 0 {
        Seq::<int>::empty()
    } else if is_live_file(rows[n - 1]) {
        live_files(rows, n - 1).push(n - 1)
    } else {
        live_files(rows, n - 1)
    }
}

/// The positions of the live files of the catalog, in order.
pub fn catalog_files(rows: &Vec<LibraryIndexRow>) -> (r: Vec<usize>)
    ensures
        r@.map_values(|i: usize| i as int) == live_files(rows@, rows@.len() as int),
        forall|k: int|
            0 <= k < r@.len() ==> #[trigger] r@[k] < rows@.len() && is_live_file(
                rows@[r@[k] as int],
            ),
{
    let mut out: Vec<usize> = Vec::new();
    let mut i: usize = 0;
    assert(out@.map_values(|i: usize| i as int) =~= Seq::<int>::empty());
    while i < rows.len()
        invariant
            i <= rows.len(),
            out@.map_values(|i: usize| i as int) == live_files(rows@, i as int),
            forall|k: int|
                0 <= k < out@.len() ==> #[trigger] out@[k] < i && is_live_file(
                    rows@[out@[k] as int],
                ),
        decreases rows.len() - i,
    {
        if !rows[i].deleted && same(rows[i].entry_type.as_str(), "file") {
            let ghost before = out@;
            out.push(i);
            assert(out@.map_values(|i: usize| i as int) =~= before.map_values(
                |i: usize| i as int,
            ).push(i as int));
        }
        i = i + 1;
    }
    out
}

/// A file of the catalog, ready for the parser.
pub struct CatalogAsset {
    pub context: CatalogAssetContext,
    pub input_revision: String,
}

/// Whether an asset is that of an entry.
pub open spec fn is_asset(
    asset: CatalogAsset,
    entry: LibraryIndexRow,
    asset_key: Seq<char>,
    source_type: Seq<char>,
    index: CatalogIndex,
    depth: nat,
) -> bool {
    &&& is_context(asset.context, entry, asset_key, source_type, index, depth)
    &&& asset.input_revision@ == sha256_of_text(
        revision_payload(
            entry,
            texts(asset.context.ancestor_dirs@),
            texts(asset.context.parent_siblings@),
        ),
    )
}

/// A file of the catalog with its surroundings and its revision.
pub fn catalog_asset(
    entry: &LibraryIndexRow,
    asset_key: &str,
    source_type: &str,
    index: &CatalogIndex,
    ancestor_depth: usize,
) -> (r: CatalogAsset)
    requires
        index.wf(),
    ensures
        is_asset(r, *entry, asset_key@, source_type@, *index, ancestor_depth as nat),
{
    let context = normalize_entry(entry, asset_key, source_type, index, ancestor_depth);
    let revision = input_revision(entry, &context.ancestor_dirs, &context.parent_siblings);
    CatalogAsset { context, input_revision: revision }
}

/// How many of the proposals are in a state.
pub open spec fn in_state(proposals: Seq<NameRoleProposal>, state: ParseState) -> nat
    decreases proposals.len(),
{
    if proposals.len() == 0 {
        0
    } else {
        in_state(proposals.drop_last(), state) + (if proposals.last().state == state {
            1nat
        } else {
            0nat
        })
    }
}

/// Every proposal is counted in one state and in no other.
pub proof fn law_states_add_up(proposals: Seq<NameRoleProposal>)
    ensures
        in_state(proposals, ParseState::Ready) + in_state(proposals, ParseState::Ambiguous)
            + in_state(proposals, ParseState::Partial) + in_state(proposals, ParseState::Unmatched)
            == proposals.len(),
    decreases proposals.len(),
{
    if proposals.len() > 0 {
        law_states_add_up(proposals.drop_last());
    }
}

/// The keys of the assets.
pub open spec fn asset_keys(assets: Seq<CatalogAsset>) -> Seq<String> {
    Seq::new(assets.len(), |i: int| assets[i].context.asset_key)
}

/// The keys of the books that the assets belong to.
pub open spec fn book_keys(assets: Seq<CatalogAsset>) -> Seq<String> {
    Seq::new(assets.len(), |i: int| assets[i].context.book_key)
}

/// Whether `x` stands in `v` more than once.
pub open spec fn repeats(v: Seq<String>, x: Seq<char>) -> bool {
    exists|i: int, j: int| 0 <= i < j < v.len() && #[trigger] v[i]@ == x && #[trigger] v[j]@ == x
}

/// The texts that stand in `v` more than once.
pub open spec fn repeated(v: Seq<String>) -> Set<Seq<char>> {
    Set::new(|x: Seq<char>| repeats(v, x))
}

proof fn lemma_repeats_step(v: Seq<String>, last: String)
    ensures
        repeated(v.push(last)) == (if listed(v, last@) {
            repeated(v).insert(last@)
        } else {
            repeated(v)
        }),
        set_of(v.push(last)) == set_of(v).insert(last@),
{
    let w = v.push(last);
    assert forall|x: Seq<char>| #[trigger] set_of(w).contains(x) <==> set_of(v).insert(
        last@,
    ).contains(x) by {
        if listed(v, x) {
            let i = choose|i: int| 0 <= i < v.len() && #[trigger] v[i]@ == x;
            assert(w[i]@ == x);
        }
        if x == last@ {
            assert(w[v.len() as int]@ == x);
        }
        if listed(w, x) {
            let i = choose|i: int| 0 <= i < w.len() && #[trigger] w[i]@ == x;
            if i < v.len() {
                assert(v[i]@ == x);
            }
        }
    }
    assert(set_of(w) =~= set_of(v).insert(last@));
    assert forall|x: Seq<char>| #[trigger] repeated(w).contains(x) <==> (repeated(v).contains(x) || (
    listed(v, last@) && x == last@)) by {
        if repeats(v, x) {
            let (i, j) = choose|i: int, j: int|
                0 <= i < j < v.len() && #[trigger] v[i]@ == x && #[trigger] v[j]@ == x;
            assert(w[i]@ == x && w[j]@ == x);
        }
        if listed(v, last@) && x == last@ {
            let i = choose|i: int| 0 <= i < v.len() && #[trigger] v[i]@ == x;
            assert(w[i]@ == x && w[v.len() as int]@ == x);
        }
        if repeats(w, x) {
            let (i, j) = choose|i: int, j: int|
                0 <= i < j < w.len() && #[trigger] w[i]@ == x && #[trigger] w[j]@ == x;
            assert(v[i]@ == x);
            if j < v.len() {
                assert(v[j]@ == x);
            }
        }
    }
    if listed(v, last@) {
        assert(repeated(w) =~= repeated(v).insert(last@));
    } else {
        assert(repeated(w) =~= repeated(v));
    }
}

/// How many different texts stand in a list, and how many of them more than
/// once.
fn count_keys(v: &Vec<String>) -> (r: (usize, usize))
    ensures
        set_of(v@).finite(),
        repeated(v@).finite(),
        r.0 == set_of(v@).len(),
        r.1 == repeated(v@).len(),
        r.0 <= v.len(),
        r.0 == v.len() <==> all_differ(v@),
        r.1 <= v.len(),
{
    let mut once: Vec<String> = Vec::new();
    let mut twice: Vec<String> = Vec::new();
    let mut i: usize = 0;
    proof {
        assert(v@.take(0) =~= Seq::<String>::empty());
        assert(set_of(v@.take(0)) =~= set_of(once@));
        assert(repeated(v@.take(0)) =~= set_of(twice@));
        lemma_set_of_len(once@);
        lemma_set_of_len(twice@);
    }
    while i < v.len()
        invariant
            i <= v.len(),
            all_differ(once@),
            all_differ(twice@),
            set_of(once@) == set_of(v@.take(i as int)),
            set_of(twice@) == repeated(v@.take(i as int)),
            once.len() <= i,
            twice.len() <= i,
            once.len() == i <==> all_differ(v@.take(i as int)),
        decreases v.len() - i,
    {
        let x = &v[i];
        let ghost before = v@.take(i as int);
        let ghost after = v@.take(i + 1);
        let ghost held = once.len();
        let ghost doubled = twice.len();
        proof {
            assert(after =~= before.push(*x));
            lemma_repeats_step(before, *x);
            lemma_set_of_len(once@);
            lemma_set_of_len(twice@);
        }
        let known = list_has(&once, x.as_str());
        assert(known == set_of(once@).contains(x@));
        assert(known == listed(before, x@)) by {
            assert(set_of(before).contains(x@) == listed(before, x@));
        }
        if known {
            add_unique(&mut twice, x.as_str());
        }
        add_unique(&mut once, x.as_str());
        proof {
            lemma_set_of_len(once@);
            lemma_set_of_len(twice@);
            if known {
                assert(set_of(before).insert(x@) =~= set_of(before));
                let k = choose|k: int| 0 <= k < before.len() && #[trigger] before[k]@ == x@;
                assert(after[k]@ == after[i as int]@);
                assert(!all_differ(after));
            } else {
                assert(all_differ(after) <==> all_differ(before)) by {
                    if all_differ(before) {
                        assert forall|a: int, b: int| 0 <= a < b < after.len() implies
                            #[trigger] after[a]@ != #[trigger] after[b]@ by {
                            if b == i {
                                assert(before[a]@ != x@);
                            } else {
                                assert(before[a]@ != before[b]@);
                            }
                        }
                    } else {
                        let (a, b) = choose|a: int, b: int|
                            0 <= a < b < before.len() && #[trigger] before[a]@
                                == #[trigger] before[b]@;
                        assert(after[a]@ == after[b]@);
                    }
                }
            }
        }
        i = i + 1;
    }
    proof {
        assert(v@.take(i as int) =~= v@);
        lemma_set_of_len(once@);
        lemma_set_of_len(twice@);
    }
    (once.len(), twice.len())
}

/// What a pass writes before it settles.
pub struct CatalogBatch {
    pub queue: Vec<ScrapeQueueRow>,
    pub proposals: Vec<ScrapeProposalRow>,
}

/// Whether a job holds the tallies of a batch.
pub open spec fn tallies(
    job: ScrapeJobRow,
    assets: Seq<CatalogAsset>,
    proposals: Seq<NameRoleProposal>,
) -> bool {
    &&& job.total == assets.len()
    &&& job.processed == assets.len()
    &&& job.ready == in_state(proposals, ParseState::Ready)
    &&& job.ambiguous == in_state(proposals, ParseState::Ambiguous)
    &&& job.partial == in_state(proposals, ParseState::Partial)
    &&& job.unmatched == in_state(proposals, ParseState::Unmatched)
    &&& job.input_assets == assets.len()
    &&& job.unique_assets == set_of(asset_keys(assets)).len()
    &&& job.asset_collision_count == job.input_assets - job.unique_assets
    &&& job.book_group_collision_count == repeated(book_keys(assets)).len()
}

/// The text that says how far assets and keys are apart.
pub open spec fn collision_text(assets: int, keys: int) -> Seq<char> {
    "catalog accounting collision: "@ + decimal_int(assets) + " physical assets mapped to "@
        + decimal_int(keys) + " asset keys"@
}

/// Counts a batch and lays out what is written for it. Where two assets
/// share a key nothing is written and the run fails.
pub fn run_catalog_pass(
    job: &mut ScrapeJobRow,
    assets: &Vec<CatalogAsset>,
    proposals: &Vec<NameRoleProposal>,
    rule_version: &str,
    now: i64,
) -> (r: Result<CatalogBatch, String>)
    requires
        old(job).is_fresh(),
        assets@.len() == proposals@.len(),
        assets@.len() <= i64::MAX,
    ensures
        final(job).same_run(*old(job)),
        final(job).updated_at == old(job).updated_at,
        final(job).proposals_written == old(job).proposals_written,
        tallies(*final(job), assets@, proposals@),
        r is Ok <==> all_differ(asset_keys(assets@)),
        match r {
            Ok(batch) => {
                &&& final(job).accounting_status == old(job).accounting_status
                &&& batch.queue.len() == assets.len()
                &&& batch.proposals.len() == assets.len()
                &&& forall|i: int|
                    0 <= i < assets.len() ==> is_new_work(
                        #[trigger] batch.queue@[i],
                        assets@[i].context.asset_key@,
                        assets@[i].context.book_key@,
                        assets@[i].context.source_id@,
                        assets@[i].context.path@,
                        assets@[i].input_revision@,
                        rule_version@,
                        old(job).trigger@,
                        now,
                    )
                &&& forall|i: int|
                    0 <= i < assets.len() ==> stores_proposal(
                        #[trigger] batch.proposals@[i],
                        assets@[i].context.book_key@,
                        assets@[i].context.filename@,
                        proposals@[i],
                        assets@[i].context.asset_key@,
                        assets@[i].context.source_id@,
                        assets@[i].context.path@,
                        assets@[i].input_revision@,
                        now,
                    )
            },
            Err(text) => {
                &&& final(job).accounting_status@ == "asset-collision"@
                &&& text@ == collision_text(
                    assets@.len() as int,
                    set_of(asset_keys(assets@)).len() as int,
                )
            },
        },
{
    let count: usize = assets.len();
    let mut queue: Vec<ScrapeQueueRow> = Vec::new();
    let mut rows: Vec<ScrapeProposalRow> = Vec::new();
    let mut assets_seen: Vec<String> = Vec::new();
    let mut books_seen: Vec<String> = Vec::new();
    let mut ready: i64 = 0;
    let mut ambiguous: i64 = 0;
    let mut partial: i64 = 0;
    let mut unmatched: i64 = 0;
    let ghost trigger = job.trigger@;
    let mut i: usize = 0;
    while i < count
        invariant
            count == assets.len(),
            assets@.len() == proposals@.len(),
            assets@.len() <= i64::MAX,
            i <= count,
            trigger == job.trigger@,
            queue.len() == i,
            rows.len() == i,
            assets_seen@ == asset_keys(assets@).take(i as int),
            books_seen@ == book_keys(assets@).take(i as int),
            ready == in_state(proposals@.take(i as int), ParseState::Ready),
            ambiguous == in_state(proposals@.take(i as int), ParseState::Ambiguous),
            partial == in_state(proposals@.take(i as int), ParseState::Partial),
            unmatched == in_state(proposals@.take(i as int), ParseState::Unmatched),
            ready + ambiguous + partial + unmatched == i,
            forall|k: int|
                0 <= k < i ==> is_new_work(
                    #[trigger] queue@[k],
                    assets@[k].context.asset_key@,
                    assets@[k].context.book_key@,
                    assets@[k].context.source_id@,
                    assets@[k].context.path@,
                    assets@[k].input_revision@,
                    rule_version@,
                    trigger,
                    now,
                ),
            forall|k: int|
                0 <= k < i ==> stores_proposal(
                    #[trigger] rows@[k],
                    assets@[k].context.book_key@,
                    assets@[k].context.filename@,
                    proposals@[k],
                    assets@[k].context.asset_key@,
                    assets@[k].context.source_id@,
                    assets@[k].context.path@,
                    assets@[k].input_revision@,
                    now,
                ),
        decreases count - i,
    {
        let context = &assets[i].context;
        let revision = &assets[i].input_revision;
        let snapshot = to_snapshot(context);
        let proposal = &proposals[i];
        assert(proposals@.take(i + 1).drop_last() =~= proposals@.take(i as int));
        assert(proposals@.take(i + 1).last() == *proposal);
        match proposal.state {
            ParseState::Ready => {
                ready = ready + 1;
            },
            ParseState::Ambiguous => {
                ambiguous = ambiguous + 1;
            },
            ParseState::Partial => {
                partial = partial + 1;
            },
            ParseState::Unmatched => {
                unmatched = unmatched + 1;
            },
        }
        rows.push(
            proposal_row(
                &snapshot,
                proposal,
                context.asset_key.as_str(),
                context.source_id.as_str(),
                context.path.as_str(),
                revision.as_str(),
                now,
            ),
        );
        queue.push(
            db_enqueue_catalog_scrape(
                context.asset_key.clone(),
                context.book_key.clone(),
                context.source_id.clone(),
                context.path.clone(),
                revision.clone(),
                rule_version.to_owned(),
                job.trigger.clone(),
                now,
            ),
        );
        assets_seen.push(context.asset_key.clone());
        books_seen.push(context.book_key.clone());
        i = i + 1;
        proof {
            let a = asset_keys(assets@);
            let b = book_keys(assets@);
            assert(a.take(i as int) =~= a.take(i - 1).push(a[i - 1]));
            assert(b.take(i as int) =~= b.take(i - 1).push(b[i - 1]));
        }
    }
    proof {
        assert(asset_keys(assets@).take(i as int) =~= asset_keys(assets@));
        assert(book_keys(assets@).take(i as int) =~= book_keys(assets@));
        assert(proposals@.take(i as int) =~= proposals@);
    }
    let (unique, _) = count_keys(&assets_seen);
    let (_, shared) = count_keys(&books_seen);
    job.total = count as i64;
    job.processed = count as i64;
    job.ready = ready;
    job.ambiguous = ambiguous;
    job.partial = partial;
    job.unmatched = unmatched;
    job.input_assets = count as i64;
    job.unique_assets = unique as i64;
    job.asset_collision_count = job.input_assets - job.unique_assets;
    job.book_group_collision_count = shared as i64;
    if job.asset_collision_count > 0 {
        job.accounting_status = "asset-collision".to_owned();
        let inputs = dec_i64(job.input_assets);
        let keys = dec_i64(job.unique_assets);
        return Err(
            cat5(
                "catalog accounting collision: ",
                inputs.as_str(),
                " physical assets mapped to ",
                keys.as_str(),
                " asset keys",
            ),
        );
    }
    Ok(CatalogBatch { queue, proposals: rows })
}

/// The text that says how far assets and stored proposals are apart.
pub open spec fn mismatch_text(assets: int, written: int) -> Seq<char> {
    "catalog accounting mismatch: input_assets="@ + decimal_int(assets) + ", proposals_written="@
        + decimal_int(written)
}

/// Holds what was written against what was read: a pass is good only where
/// every asset has its proposal.
pub fn settle_catalog_pass(job: &mut ScrapeJobRow, written: i64, now: i64) -> (r: Result<
    (),
    String,
>)
    ensures
        final(job).same_run(*old(job)),
        final(job).same_tallies(*old(job)),
        final(job).proposals_written == written,
        r is Ok <==> written == old(job).input_assets,
        match r {
            Ok(_) => final(job).accounting_status@ == "pass"@ && final(job).updated_at == now,
            Err(text) => {
                &&& final(job).accounting_status@ == "proposal-count-mismatch"@
                &&& final(job).updated_at == old(job).updated_at
                &&& text@ == mismatch_text(old(job).input_assets as int, written as int)
            },
        },
{
    job.proposals_written = written;
    if job.proposals_written != job.input_assets {
        job.accounting_status = "proposal-count-mismatch".to_owned();
        let inputs = dec_i64(job.input_assets);
        let count = dec_i64(written);
        return Err(
            cat4(
                "catalog accounting mismatch: input_assets=",
                inputs.as_str(),
                ", proposals_written=",
                count.as_str(),
            ),
        );
    }
    job.accounting_status = "pass".to_owned();
    job.updated_at = now;
    Ok(())
}

/// Ends a run: what it is stored as, and what its caller is told.
pub fn finish_catalog_scrape(
    job: &mut ScrapeJobRow,
    outcome: Result<(), String>,
    finished_at: i64,
    updated_at: i64,
) -> (r: Result<ScrapeRunDto, String>)
    ensures
        final(job).id == old(job).id,
        final(job).trigger == old(job).trigger,
        final(job).rule_version == old(job).rule_version,
        final(job).same_tallies(*old(job)),
        final(job).proposals_written == old(job).proposals_written,
        final(job).accounting_status == old(job).accounting_status,
        final(job).requested_at == old(job).requested_at,
        final(job).started_at == old(job).started_at,
        final(job).finished_at == Some(finished_at),
        final(job).updated_at == updated_at,
        match outcome {
            Ok(_) => {
                &&& final(job).status@ == "succeeded"@
                &&& final(job).error == old(job).error
                &&& r == Ok::<ScrapeRunDto, String>(run_of(*final(job)))
            },
            Err(text) => {
                &&& final(job).status@ == "failed"@
                &&& final(job).error == text
                &&& r == Err::<ScrapeRunDto, String>(text)
            },
        },
{
    job.finished_at = Some(finished_at);
    job.updated_at = updated_at;
    match outcome {
        Ok(_) => {
            job.status = "succeeded".to_owned();
            Ok(run_dto(job))
        },
        Err(error) => {
            job.status = "failed".to_owned();
            job.error = error.clone();
            Err(error)
        },
    }
}

/// A run that settles has a proposal for every file, and no two files share
/// a key.
pub proof fn law_a_settled_run_accounts_for_every_file(
    job: ScrapeJobRow,
    assets: Seq<CatalogAsset>,
    proposals: Seq<NameRoleProposal>,
)
    requires
        assets.len() == proposals.len(),
        tallies(job, assets, proposals),
        all_differ(asset_keys(assets)),
        job.proposals_written == job.input_assets,
    ensures
        job.proposals_written == assets.len(),
        job.unique_assets == assets.len(),
        job.asset_collision_count == 0,
        job.ready + job.ambiguous + job.partial + job.unmatched == job.processed,
{
    lemma_set_of_len(asset_keys(assets));
    law_states_add_up(proposals);
}

// ------------------------------------------------------------------
// What is shown and counted
// ------------------------------------------------------------------

/// A run and a piece of work are shown as they are stored, each field under
/// its name.
pub proof fn law_runs_and_work_are_shown_as_stored(run: ScrapeJobRow, work: ScrapeQueueRow)
    ensures
        ({
            let shown = run_of(run);
            &&& shown.id == run.id
            &&& shown.trigger == run.trigger
            &&& shown.status == run.status
            &&& shown.rule_version == run.rule_version
            &&& shown.total == run.total
            &&& shown.processed == run.processed
            &&& shown.ready == run.ready
            &&& shown.ambiguous == run.ambiguous
            &&& shown.partial == run.partial
            &&& shown.unmatched == run.unmatched
            &&& shown.input_assets == run.input_assets
            &&& shown.unique_assets == run.unique_assets
            &&& shown.proposals_written == run.proposals_written
            &&& shown.asset_collision_count == run.asset_collision_count
            &&& shown.book_group_collision_count == run.book_group_collision_count
            &&& shown.accounting_status == run.accounting_status
            &&& shown.error == run.error
            &&& shown.requested_at == run.requested_at
            &&& shown.started_at == run.started_at
            &&& shown.finished_at == run.finished_at
            &&& shown.updated_at == run.updated_at
        }),
        ({
            let shown = queue_of(work);
            &&& shown.id == work.id
            &&& shown.asset_key == work.asset_key
            &&& shown.book_key == work.book_key
            &&& shown.source_id == work.source_id
            &&& shown.path == work.path
            &&& shown.input_revision == work.input_revision
            &&& shown.rule_version == work.rule_version
            &&& shown.trigger == work.trigger
            &&& shown.status == work.status
            &&& shown.attempt == work.attempt
            &&& shown.next_run_at == work.next_run_at
            &&& shown.last_error == work.last_error
            &&& shown.created_at == work.created_at
            &&& shown.updated_at == work.updated_at
        }),
{
}

/// A proposal that was stored is shown as what the parser made of the name;
/// one that was never applied shows empty lists.
pub proof fn law_proposals_are_shown_as_made(
    dto: ScrapeProposalDto,
    row: ScrapeProposalRow,
    applied: Option<ScrapeMaterializationRow>,
    book_key: Seq<char>,
    filename: Seq<char>,
    proposal: NameRoleProposal,
    asset_key: Seq<char>,
    source_id: Seq<char>,
    path: Seq<char>,
    revision: Seq<char>,
    now: i64,
)
    requires
        stores_proposal(
            row,
            book_key,
            filename,
            proposal,
            asset_key,
            source_id,
            path,
            revision,
            now,
        ),
        shows_proposal(dto, row, applied),
    ensures
        dto.asset_key@ == asset_key && dto.book_key@ == book_key && dto.source_id@ == source_id
            && dto.path@ == path && dto.filename@ == filename,
        dto.title == proposal.title && dto.provider == proposal.provider && dto.volume
            == proposal.volume && dto.chapter == proposal.chapter && dto.rule_version
            == proposal.rule_version,
        dto.authors_json@ == json_of_texts(texts(proposal.authors@)),
        dto.state@ == state_text(proposal.state),
        proposal.evidence_json matches Some(text) ==> dto.evidence_json@ == text@,
        proposal.evidence_json is None ==> dto.evidence_json@ == "[]"@,
        proposal.conflicts_json matches Some(text) ==> dto.conflicts_json@ == text@,
        proposal.conflicts_json is None ==> dto.conflicts_json@ == "[]"@,
        proposal.semantic_json matches Some(text) ==> dto.semantic_json@ == text@,
        proposal.semantic_json is None ==> dto.semantic_json@ == "{}"@,
        dto.input_revision@ == revision && dto.updated_at == now,
        dto.materialization_status@ == "pending"@ && dto.materialization_error@.len() == 0
            && dto.materialized_at is None,
        applied is None ==> dto.materialization_applied_fields_json@ == "[]"@
            && dto.materialization_added_tags_json@ == "[]"@
            && dto.materialization_skipped_fields_json@ == "[]"@,
        applied matches Some(m) ==> dto.materialization_applied_fields_json
            == m.applied_fields_json && dto.materialization_added_tags_json == m.added_tags_json
            && dto.materialization_skipped_fields_json == m.skipped_fields_json,
{
}

/// New work is queued and due at once, tried never, with no error, for its
/// own asset.
pub proof fn law_new_work_is_due_at_once(
    row: ScrapeQueueRow,
    asset_key: Seq<char>,
    book_key: Seq<char>,
    source_id: Seq<char>,
    path: Seq<char>,
    revision: Seq<char>,
    rule_version: Seq<char>,
    trigger: Seq<char>,
    now: i64,
)
    requires
        is_new_work(
            row,
            asset_key,
            book_key,
            source_id,
            path,
            revision,
            rule_version,
            trigger,
            now,
        ),
    ensures
        row.status@ == "queued"@ && row.attempt == 0 && row.last_error is None,
        row.next_run_at == now && row.created_at == now && row.updated_at == now,
        row.asset_key@ == asset_key && row.book_key@ == book_key && row.source_id@ == source_id
            && row.path@ == path,
        row.input_revision@ == revision && row.rule_version@ == rule_version && row.trigger@
            == trigger,
{
}

/// The states of proposals have names of their own.
pub proof fn law_states_have_their_names(state: ParseState)
    ensures
        state_text(state) == "ready"@ <==> state == ParseState::Ready,
        state_text(state) == "partial"@ <==> state == ParseState::Partial,
        state_text(state) == "ambiguous"@ <==> state == ParseState::Ambiguous,
        state_text(state) == "unmatched"@ <==> state == ParseState::Unmatched,
{
    reveal_strlit("ready");
    reveal_strlit("partial");
    reveal_strlit("ambiguous");
    reveal_strlit("unmatched");
    assert("ready"@.len() == 5 && "partial"@.len() == 7 && "ambiguous"@.len() == 9);
    assert("unmatched"@.len() == 9 && "ambiguous"@[0] == 'a' && "unmatched"@[0] == 'u');
}

/// Dashes take the place of all characters but ASCII letters and digits, one
/// for one.
pub proof fn law_dashes_take_the_place_of_others(s: Seq<char>, i: int)
    requires
        0 <= i < s.len(),
    ensures
        dashed(s).len() == s.len(),
        dashed(s)[i] == (if ('a' <= s[i] && s[i] <= 'z') || ('A' <= s[i] && s[i] <= 'Z') || ('0'
            <= s[i] && s[i] <= '9') {
            s[i]
        } else {
            '-'
        }),
{
}

/// The revision of an entry is made from its id, path, name, hash and time,
/// then the directories above it, then the files beside it in the order of
/// their names; that of a lone name from its book, its name and the same
/// surroundings.
pub proof fn law_revisions_are_made_from_everything(
    entry: LibraryIndexRow,
    ancestors: Seq<Seq<char>>,
    siblings: Seq<Seq<char>>,
    snapshot: CatalogSnapshot,
)
    ensures
        revision_payload(entry, ancestors, siblings) == entry.id@ + "|"@ + entry.path@ + "|"@
            + entry.name@ + "|"@ + (match entry.hash {
            Some(h) => h@,
            None => Seq::<char>::empty(),
        }) + "|"@ + decimal_int(entry.updated_at as int) + "|"@ + joined(ancestors, "\u{1f}"@) + "|"@
            + joined(sorted_texts(siblings), "\u{1f}"@),
        snapshot_payload(snapshot) == snapshot.book_key@ + "|"@ + snapshot.filename@ + "|"@
            + joined(texts(snapshot.ancestor_dirs@), "\u{1f}"@) + "|"@ + joined(
            sorted_texts(texts(snapshot.parent_siblings@)),
            "\u{1f}"@,
        ),
{
}

/// A run is named by the time it was asked for and by what asked for it.
pub proof fn law_runs_are_named_by_their_time(a: int, b: int, trigger: Seq<char>)
    requires
        i64::MIN <= a <= i64::MAX,
        i64::MIN <= b <= i64::MAX,
        job_id(a, trigger) == job_id(b, trigger),
    ensures
        a == b,
{
    let tail = "-"@ + dashed(trigger);
    let x = decimal_int(a);
    let y = decimal_int(b);
    let head = "scrape-"@;
    assert(job_id(a, trigger) =~= head + (x + tail));
    assert(job_id(b, trigger) =~= head + (y + tail));
    assert((head + (x + tail)).skip(head.len() as int) =~= x + tail);
    assert((head + (y + tail)).skip(head.len() as int) =~= y + tail);
    assert((x + tail).len() == (y + tail).len());
    assert((x + tail).take(x.len() as int) =~= x);
    assert((y + tail).take(y.len() as int) =~= y);
    law_signed_decimal_reads_back(a);
    law_signed_decimal_reads_back(b);
}

/// The type of a source is the last that is listed for it, and unknown where
/// none is.
pub proof fn law_last_type_counts(
    types: Seq<(String, String)>,
    id: String,
    kind: String,
    source_id: Seq<char>,
)
    ensures
        type_of(Seq::<(String, String)>::empty(), source_id) == "unknown"@,
        type_of(types.push((id, kind)), source_id) == (if id@ == source_id {
            kind@
        } else {
            type_of(types, source_id)
        }),
{
    assert(types.push((id, kind)).drop_last() =~= types);
}

/// The files of the catalog are its rows that are files and not deleted, in
/// their order.
pub proof fn law_catalog_files_are_the_live_files(rows: Seq<LibraryIndexRow>, n: int, i: int)
    requires
        0 <= n <= rows.len(),
    ensures
        live_files(rows, n).contains(i) <==> 0 <= i < n && !rows[i].deleted && rows[i].entry_type@
            == "file"@,
        forall|a: int, b: int|
            0 <= a < b < live_files(rows, n).len() ==> live_files(rows, n)[a] < live_files(
                rows,
                n,
            )[b],
        forall|a: int|
            0 <= a < live_files(rows, n).len() ==> 0 <= #[trigger] live_files(rows, n)[a] < n,
    decreases n,
{
    if n > 0 {
        law_catalog_files_are_the_live_files(rows, n - 1, i);
        let before = live_files(rows, n - 1);
        let now = live_files(rows, n);
        if is_live_file(rows[n - 1]) {
            assert(now == before.push(n - 1));
            if before.contains(i) {
                let k = choose|k: int| 0 <= k < before.len() && before[k] == i;
                assert(now[k] == i);
            }
            assert(now[before.len() as int] == n - 1);
            if now.contains(i) && i != n - 1 {
                let k = choose|k: int| 0 <= k < now.len() && now[k] == i;
                assert(before[k] == i);
            }
        }
    }
}

/// A run counts each asset once, each proposal under its own state, and as
/// collisions the assets whose key another has as well and the books that
/// more than one asset belongs to.
pub proof fn law_runs_count_what_there_is(
    job: ScrapeJobRow,
    assets: Seq<CatalogAsset>,
    proposals: Seq<NameRoleProposal>,
    proposal: NameRoleProposal,
    state: ParseState,
    key: Seq<char>,
)
    requires
        tallies(job, assets, proposals),
        assets.len() == proposals.len(),
    ensures
        job.total == assets.len() && job.processed == assets.len() && job.input_assets
            == assets.len(),
        job.ready + job.ambiguous + job.partial + job.unmatched == assets.len(),
        job.ready == in_state(proposals, ParseState::Ready),
        job.ambiguous == in_state(proposals, ParseState::Ambiguous),
        job.partial == in_state(proposals, ParseState::Partial),
        job.unmatched == in_state(proposals, ParseState::Unmatched),
        job.unique_assets + job.asset_collision_count == assets.len(),
        in_state(proposals.push(proposal), state) == in_state(proposals, state) + (
        if proposal.state == state {
            1nat
        } else {
            0nat
        }),
        repeated(book_keys(assets)).contains(key) <==> exists|i: int, j: int|
            0 <= i < j < assets.len() && (#[trigger] assets[i]).context.book_key@ == key && (
            #[trigger] assets[j]).context.book_key@ == key,
{
    law_states_add_up(proposals);
    assert(proposals.push(proposal).drop_last() =~= proposals);
    let keys = book_keys(assets);
    if repeats(keys, key) {
        let (i, j) = choose|i: int, j: int|
            0 <= i < j < keys.len() && #[trigger] keys[i]@ == key && #[trigger] keys[j]@ == key;
        assert(assets[i].context.book_key@ == key && assets[j].context.book_key@ == key);
    }
    if exists|i: int, j: int|
        0 <= i < j < assets.len() && (#[trigger] assets[i]).context.book_key@ == key && (
        #[trigger] assets[j]).context.book_key@ == key {
        let (i, j) = choose|i: int, j: int|
            0 <= i < j < assets.len() && (#[trigger] assets[i]).context.book_key@ == key && (
            #[trigger] assets[j]).context.book_key@ == key;
        assert(keys[i]@ == key && keys[j]@ == key);
    }
}

/// An asset is a file in its context, under the revision of both.
pub proof fn law_assets_are_files_in_their_context(
    asset: CatalogAsset,
    entry: LibraryIndexRow,
    asset_key: Seq<char>,
    source_type: Seq<char>,
    index: CatalogIndex,
    depth: nat,
)
    requires
        is_asset(asset, entry, asset_key, source_type, index, depth),
    ensures
        is_context(asset.context, entry, asset_key, source_type, index, depth),
        asset.input_revision@ == sha256_of_text(
            revision_payload(
                entry,
                texts(asset.context.ancestor_dirs@),
                texts(asset.context.parent_siblings@),
            ),
        ),
{
}

/// Counting leaves the run itself as it is, and settling leaves the tallies;
/// a fresh run has counted nothing.
pub proof fn law_counting_leaves_the_run(now: ScrapeJobRow, was: ScrapeJobRow)
    ensures
        now.same_run(was) ==> now.id == was.id && now.trigger == was.trigger && now.status
            == was.status && now.rule_version == was.rule_version && now.error == was.error
            && now.requested_at == was.requested_at && now.started_at == was.started_at
            && now.finished_at == was.finished_at,
        now.same_tallies(was) ==> now.total == was.total && now.processed == was.processed
            && now.ready == was.ready && now.ambiguous == was.ambiguous && now.partial
            == was.partial && now.unmatched == was.unmatched && now.input_assets
            == was.input_assets && now.unique_assets == was.unique_assets
            && now.asset_collision_count == was.asset_collision_count
            && now.book_group_collision_count == was.book_group_collision_count,
        now.is_fresh() ==> now.total == 0 && now.processed == 0 && now.ready == 0 && now.ambiguous
            == 0 && now.partial == 0 && now.unmatched == 0 && now.input_assets == 0
            && now.unique_assets == 0 && now.proposals_written == 0 && now.asset_collision_count
            == 0 && now.book_group_collision_count == 0,
{
}

/// A failed accounting names both numbers that are apart.
pub proof fn law_failed_accounts_name_their_numbers(assets: int, other: int)
    ensures
        collision_text(assets, other) == "catalog accounting collision: "@ + decimal_int(assets)
            + " physical assets mapped to "@ + decimal_int(other) + " asset keys"@,
        mismatch_text(assets, other) == "catalog accounting mismatch: input_assets="@ + decimal_int(
            assets,
        ) + ", proposals_written="@ + decimal_int(other),
{
}

} // verus!
