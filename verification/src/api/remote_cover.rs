//! The demand for remote covers.
//!
//! A request only records what is wanted and wakes the worker; it never
//! waits for a provider. Directory views and reads use what is stored.

use vstd::prelude::*;
use vstd::string::*;

use crate::api::book::PageImage;
use crate::number::{all_digits, dec_u64, decimal, is_digit, lemma_decimal_digits};
use crate::remote_scan::fetch::{
    cover_quality_profile, law_profiles_name_their_size, law_selections_name_their_page,
    profile_size, quality_profile, selected_page,
};
use crate::remote_scan::model::{CoverJobKey, CoverJobState};
use crate::text::{
    add_unique, all_differ, begins, blank, cat2, cat3, cat5, clone_list, is_blank, joined,
    law_first_piece_ends_at_the_separator, lemma_set_of_len, list_has, listed, opt_text, or_empty,
    pieces, same, set_of, stripped, text_or_empty, texts, trim, CharClass,
};

verus! {

// ------------------------------------------------------------------
// Views of directories
// ------------------------------------------------------------------

/// What an entry of the catalog is.
#[derive(Clone, Copy, PartialEq, Eq, Structural, Debug)]
pub enum CatalogEntryKind {
    ArchiveFile,
    ImageFile,
    ImageFolder,
    ContainerDir,
    PlainDir,
    Other,
}

/// The name of a kind.
pub open spec fn kind_text(kind: CatalogEntryKind) -> Seq<char> {
    match kind {
        CatalogEntryKind::ArchiveFile => "ArchiveFile"@,
        CatalogEntryKind::ImageFile => "ImageFile"@,
        CatalogEntryKind::ImageFolder => "ImageFolder"@,
        CatalogEntryKind::ContainerDir => "ContainerDir"@,
        CatalogEntryKind::PlainDir => "PlainDir"@,
        CatalogEntryKind::Other => "Other"@,
    }
}

/// The name of a kind.
pub fn kind_name(kind: CatalogEntryKind) -> (r: &'static str)
    ensures
        r@ == kind_text(kind),
{
    match kind {
        CatalogEntryKind::ArchiveFile => "ArchiveFile",
        CatalogEntryKind::ImageFile => "ImageFile",
        CatalogEntryKind::ImageFolder => "ImageFolder",
        CatalogEntryKind::ContainerDir => "ContainerDir",
        CatalogEntryKind::PlainDir => "PlainDir",
        CatalogEntryKind::Other => "Other",
    }
}

/// The durable state of a cover.
pub struct CatalogCoverState {
    pub state: String,
    pub revision: i64,
    pub ready: bool,
    pub error_code: Option<String>,
    pub retry_at: Option<i64>,
    pub is_previous_revision: bool,
}

/// The state of a cover as it is shown.
pub struct RemoteCoverStateDto {
    pub state: String,
    pub revision: i64,
    pub ready: bool,
    pub error_code: Option<String>,
    pub retry_at: Option<i64>,
    pub is_previous_revision: bool,
}

/// The state of a cover as it is shown.
pub open spec fn cover_state_of(state: CatalogCoverState) -> RemoteCoverStateDto {
    RemoteCoverStateDto {
        state: state.state,
        revision: state.revision,
        ready: state.ready,
        error_code: state.error_code,
        retry_at: state.retry_at,
        is_previous_revision: state.is_previous_revision,
    }
}

/// The state of a cover as it is shown.
pub fn cover_dto(state: &CatalogCoverState) -> (r: RemoteCoverStateDto)
    ensures
        r == cover_state_of(*state),
{
    RemoteCoverStateDto {
        state: state.state.clone(),
        revision: state.revision,
        ready: state.ready,
        error_code: state.error_code.clone(),
        retry_at: state.retry_at,
        is_previous_revision: state.is_previous_revision,
    }
}

/// An entry of a directory of the catalog.
pub struct CatalogEntry {
    pub asset_id: String,
    pub logical_path: String,
    pub provider_path: Option<String>,
    pub name: String,
    pub kind: CatalogEntryKind,
    pub size: Option<u64>,
    pub representative_asset_id: Option<String>,
    pub cover: CatalogCoverState,
}

/// A page of a directory of the catalog.
pub struct CatalogView {
    pub source_id: String,
    pub logical_path: String,
    pub revision: i64,
    pub listing_complete: bool,
    pub has_more: bool,
    pub entries: Vec<CatalogEntry>,
}

/// An entry of a directory as it is shown.
pub struct RemoteDirectoryEntryDto {
    pub asset_id: String,
    pub logical_path: String,
    pub provider_path: Option<String>,
    pub name: String,
    pub asset_kind: String,
    pub size: Option<u64>,
    pub representative_asset_id: Option<String>,
    pub cover: RemoteCoverStateDto,
}

/// A page of a directory as it is shown.
pub struct RemoteDirectoryViewDto {
    pub source_id: String,
    pub logical_path: String,
    pub revision: i64,
    pub listing_complete: bool,
    pub has_more: bool,
    pub entries: Vec<RemoteDirectoryEntryDto>,
}

/// Whether `dto` shows an entry.
pub open spec fn shows_entry(dto: RemoteDirectoryEntryDto, entry: CatalogEntry) -> bool {
    &&& dto.asset_id == entry.asset_id && dto.logical_path == entry.logical_path
    &&& dto.provider_path == entry.provider_path && dto.name == entry.name
    &&& dto.asset_kind@ == kind_text(entry.kind) && dto.size == entry.size
    &&& dto.representative_asset_id == entry.representative_asset_id
    &&& dto.cover == cover_state_of(entry.cover)
}

/// A page of a directory as it is shown: every entry, in order.
pub fn remote_directory_view(view: &CatalogView) -> (r: RemoteDirectoryViewDto)
    ensures
        r.source_id == view.source_id,
        r.logical_path == view.logical_path,
        r.revision == view.revision,
        r.listing_complete == view.listing_complete,
        r.has_more == view.has_more,
        r.entries.len() == view.entries.len(),
        forall|i: int|
            0 <= i < view.entries.len() ==> shows_entry(#[trigger] r.entries@[i], view.entries@[i]),
{
    let mut entries: Vec<RemoteDirectoryEntryDto> = Vec::new();
    let mut i: usize = 0;
    while i < view.entries.len()
        invariant
            i <= view.entries.len(),
            entries.len() == i,
            forall|j: int| 0 <= j < i ==> shows_entry(#[trigger] entries@[j], view.entries@[j]),
        decreases view.entries.len() - i,
    {
        let entry = &view.entries[i];
        entries.push(
            RemoteDirectoryEntryDto {
                asset_id: entry.asset_id.clone(),
                logical_path: entry.logical_path.clone(),
                provider_path: entry.provider_path.clone(),
                name: entry.name.clone(),
                asset_kind: kind_name(entry.kind).to_owned(),
                size: entry.size,
                representative_asset_id: entry.representative_asset_id.clone(),
                cover: cover_dto(&entry.cover),
            },
        );
        i = i + 1;
    }
    RemoteDirectoryViewDto {
        source_id: view.source_id.clone(),
        logical_path: view.logical_path.clone(),
        revision: view.revision,
        listing_complete: view.listing_complete,
        has_more: view.has_more,
        entries,
    }
}

// ------------------------------------------------------------------
// Selections and profiles
// ------------------------------------------------------------------

/// What part of a book is its cover.
pub struct CoverSelectionDto {
    pub page: u32,
    /// Left, top, width and height, each with five decimal places.
    pub crop: Option<String>,
    pub explicit_asset_id: Option<String>,
    pub revision: String,
}

/// How large a cover is, and which decoder makes it.
pub struct CoverProfileDto {
    pub width: u32,
    pub height: u32,
    pub decoder_version: u32,
}

/// The text of a profile.
pub open spec fn profile_text(profile: CoverProfileDto) -> Seq<char> {
    decimal(profile.width as nat) + "x"@ + decimal(profile.height as nat) + "@"@ + decimal(
        profile.decoder_version as nat,
    )
}

/// The text of a profile.
pub fn profile_key(profile: &CoverProfileDto) -> (r: String)
    ensures
        r@ == profile_text(*profile),
{
    let width = dec_u64(profile.width as u64);
    let height = dec_u64(profile.height as u64);
    let version = dec_u64(profile.decoder_version as u64);
    cat5(width.as_str(), "x", height.as_str(), "@", version.as_str())
}

/// The text of a selection: the revision that its caller gave it, with the
/// representative behind it where there is one, else one made from the page,
/// the crop and the representative.
pub open spec fn selection_text(selection: CoverSelectionDto) -> Seq<char> {
    let explicit = stripped(text_or_empty(selection.explicit_asset_id));
    if !is_blank(selection.revision@) {
        if explicit.len() == 0 {
            selection.revision@
        } else {
            selection.revision@ + "|asset:"@ + explicit
        }
    } else {
        "page:"@ + decimal(selection.page as nat) + "|crop:"@ + text_or_empty(selection.crop)
            + "|asset:"@ + explicit
    }
}

/// The text of a selection.
pub fn selection_key(selection: &CoverSelectionDto) -> (r: String)
    ensures
        r@ == selection_text(*selection),
{
    let given = or_empty(&selection.explicit_asset_id);
    let explicit = trim(given.as_str(), CharClass::White);
    if !blank(selection.revision.as_str()) {
        if explicit.as_str().is_empty() {
            return selection.revision.clone();
        }
        return cat3(selection.revision.as_str(), "|asset:", explicit.as_str());
    }
    let page = dec_u64(selection.page as u64);
    let crop = or_empty(&selection.crop);
    let head = cat5("page:", page.as_str(), "|crop:", crop.as_str(), "|asset:");
    cat2(head.as_str(), explicit.as_str())
}

/// Two selections that differ in their representative alone never share a
/// cover.
pub proof fn law_representatives_have_their_own_covers(
    a: CoverSelectionDto,
    b: CoverSelectionDto,
)
    requires
        a.page == b.page,
        opt_text(a.crop) == opt_text(b.crop),
        a.revision@ == b.revision@,
        selection_text(a) == selection_text(b),
    ensures
        stripped(text_or_empty(a.explicit_asset_id)) == stripped(
            text_or_empty(b.explicit_asset_id),
        ),
{
    let x = stripped(text_or_empty(a.explicit_asset_id));
    let y = stripped(text_or_empty(b.explicit_asset_id));
    reveal_strlit("|asset:");
    assert(text_or_empty(a.crop) == text_or_empty(b.crop));
    if !is_blank(a.revision@) {
        let head = a.revision@ + "|asset:"@;
        if x.len() > 0 && y.len() > 0 {
            assert((head + x).skip(head.len() as int) =~= x);
            assert((head + y).skip(head.len() as int) =~= y);
        } else if x.len() > 0 {
            assert((head + x).len() > a.revision@.len());
        } else if y.len() > 0 {
            assert((head + y).len() > a.revision@.len());
        } else {
            assert(x =~= y);
        }
    } else {
        let head = "page:"@ + decimal(a.page as nat) + "|crop:"@ + text_or_empty(a.crop)
            + "|asset:"@;
        assert((head + x).skip(head.len() as int) =~= x);
        assert((head + y).skip(head.len() as int) =~= y);
    }
}

// ------------------------------------------------------------------
// Routes
// ------------------------------------------------------------------

/// Where an asset is found, and in which scan it was found there.
pub struct RouteRevision {
    pub logical_path: String,
    pub source_fingerprint: String,
    pub generation: i64,
    pub session_epoch: String,
    pub provider_id: String,
    pub provider_file_id: Option<String>,
}

/// What the preview of a scan holds of an asset of the source.
pub struct PreviewRow {
    pub asset_id: String,
    pub logical_path: String,
    pub source_fingerprint: String,
    pub generation: i64,
    pub session_epoch: String,
    pub provider_file_id: Option<String>,
    pub parent_asset_id: Option<String>,
    pub entry_type: String,
    pub content_fingerprint: Option<String>,
}

/// What the index holds of an asset of the source.
pub struct IndexRow {
    pub id: String,
    pub parent_id: Option<String>,
    pub entry_type: String,
    pub content_fingerprint: Option<String>,
    pub deleted: bool,
}

/// A session in which a generation of a scan was made.
pub struct EpochRow {
    pub generation: i64,
    pub session_epoch: String,
    pub session_token: i64,
}

/// What is stored of a source when a cover is requested.
pub struct CoverRequestFacts {
    /// The type of the source, where the source is known.
    pub source_type: Option<String>,
    /// The fingerprint of its configuration.
    pub fingerprint: Option<String>,
    /// The generation of the scan that runs.
    pub running: Option<i64>,
    pub previews: Vec<PreviewRow>,
    /// The published route of the asset.
    pub route: Option<RouteRevision>,
    pub epochs: Vec<EpochRow>,
    pub index: Vec<IndexRow>,
}

/// Whether a preview shows the asset in the scan that runs.
pub open spec fn is_live_preview(
    row: PreviewRow,
    asset_id: Seq<char>,
    running: Option<i64>,
) -> bool {
    row.asset_id@ == asset_id && running == Some(row.generation) && row.session_epoch@.len() > 0
}

/// Whether a preview is a route to the asset: it is live, and the source has
/// not been reconfigured since.
pub open spec fn is_preview_route(
    row: PreviewRow,
    asset_id: Seq<char>,
    running: Option<i64>,
    fingerprint: Option<Seq<char>>,
) -> bool {
    is_live_preview(row, asset_id, running) && fingerprint == Some(row.source_fingerprint@)
}

/// The first preview that is a route to the asset.
pub open spec fn preview_route(facts: CoverRequestFacts, asset_id: Seq<char>, n: int) -> Option<int>
    decreases n,
{
    if n <= 0 {
        None
    } else {
        match preview_route(facts, asset_id, n - 1) {
            Some(i) => Some(i),
            None => if is_preview_route(
                facts.previews@[n - 1],
                asset_id,
                facts.running,
                opt_text(facts.fingerprint),
            ) {
                Some(n - 1)
            } else {
                None
            },
        }
    }
}

/// Whether `route` is the route to the asset: that of the running scan where
/// it has one, since a provider may have given the file a new id, else the
/// published one.
pub open spec fn is_route_to(
    route: RouteRevision,
    facts: CoverRequestFacts,
    asset_id: Seq<char>,
) -> bool {
    match preview_route(facts, asset_id, facts.previews@.len() as int) {
        Some(i) => {
            let row = facts.previews@[i];
            &&& route.logical_path == row.logical_path
            &&& route.source_fingerprint == row.source_fingerprint
            &&& route.generation == row.generation
            &&& route.session_epoch == row.session_epoch
            &&& route.provider_id@ == (match facts.source_type {
                Some(t) => t@,
                None => "unknown"@,
            })
            &&& route.provider_file_id == row.provider_file_id
        },
        None => facts.route == Some(route),
    }
}

/// Whether the asset has a route at all.
pub open spec fn has_route(facts: CoverRequestFacts, asset_id: Seq<char>) -> bool {
    preview_route(facts, asset_id, facts.previews@.len() as int) is Some || facts.route is Some
}

fn copy_route(route: &RouteRevision) -> (r: RouteRevision)
    ensures
        r == *route,
{
    RouteRevision {
        logical_path: route.logical_path.clone(),
        source_fingerprint: route.source_fingerprint.clone(),
        generation: route.generation,
        session_epoch: route.session_epoch.clone(),
        provider_id: route.provider_id.clone(),
        provider_file_id: route.provider_file_id.clone(),
    }
}

fn runs(running: Option<i64>, generation: i64) -> (r: bool)
    ensures
        r == (running == Some(generation)),
{
    match running {
        Some(g) => g == generation,
        None => false,
    }
}

fn live_preview(row: &PreviewRow, asset_id: &str, running: Option<i64>) -> (r: bool)
    ensures
        r == is_live_preview(*row, asset_id@, running),
{
    same(row.asset_id.as_str(), asset_id) && runs(running, row.generation)
        && !row.session_epoch.as_str().is_empty()
}

/// The route to an asset.
pub fn route_revision(facts: &CoverRequestFacts, asset_id: &str) -> (r: Result<
    RouteRevision,
    String,
>)
    ensures
        match r {
            Ok(route) => has_route(*facts, asset_id@) && is_route_to(route, *facts, asset_id@),
            Err(text) => !has_route(*facts, asset_id@) && text@ == "资源尚未完成索引"@,
        },
{
    let mut i: usize = 0;
    while i < facts.previews.len()
        invariant
            i <= facts.previews.len(),
            preview_route(*facts, asset_id@, i as int) is None,
        decreases facts.previews.len() - i,
    {
        let row = &facts.previews[i];
        let current = match &facts.fingerprint {
            Some(f) => same(f.as_str(), row.source_fingerprint.as_str()),
            None => false,
        };
        if live_preview(row, asset_id, facts.running) && current {
            proof {
                assert(preview_route(*facts, asset_id@, i + 1) == Some(i as int));
                lemma_first_route_stays(*facts, asset_id@, i + 1, facts.previews@.len() as int);
            }
            let provider_id = match &facts.source_type {
                Some(t) => t.clone(),
                None => "unknown".to_owned(),
            };
            return Ok(
                RouteRevision {
                    logical_path: row.logical_path.clone(),
                    source_fingerprint: row.source_fingerprint.clone(),
                    generation: row.generation,
                    session_epoch: row.session_epoch.clone(),
                    provider_id,
                    provider_file_id: row.provider_file_id.clone(),
                },
            );
        }
        i = i + 1;
    }
    match &facts.route {
        Some(route) => Ok(copy_route(route)),
        None => Err("资源尚未完成索引".to_owned()),
    }
}

proof fn lemma_first_route_stays(facts: CoverRequestFacts, asset_id: Seq<char>, m: int, n: int)
    requires
        0 <= m <= n,
        preview_route(facts, asset_id, m) is Some,
    ensures
        preview_route(facts, asset_id, n) == preview_route(facts, asset_id, m),
    decreases n - m,
{
    if m < n {
        lemma_first_route_stays(facts, asset_id, m, n - 1);
    }
}

/// Whether a route was made in the session that asks.
pub open spec fn session_matches(
    epochs: Seq<EpochRow>,
    generation: i64,
    epoch: Seq<char>,
    session: u64,
) -> bool {
    exists|i: int|
        0 <= i < epochs.len() && (#[trigger] epochs[i]).generation == generation
            && epochs[i].session_epoch@ == epoch && epochs[i].session_token == session
}

/// Whether a route was made in the session that asks.
pub fn route_session_matches(
    facts: &CoverRequestFacts,
    route: &RouteRevision,
    session: u64,
) -> (r: bool)
    ensures
        r == session_matches(facts.epochs@, route.generation, route.session_epoch@, session),
{
    if session > 0x7fff_ffff_ffff_ffff {
        return false;
    }
    let token: i64 = session as i64;
    let mut i: usize = 0;
    while i < facts.epochs.len()
        invariant
            i <= facts.epochs.len(),
            token == session,
            forall|j: int|
                0 <= j < i ==> !((#[trigger] facts.epochs@[j]).generation == route.generation
                    && facts.epochs@[j].session_epoch@ == route.session_epoch@
                    && facts.epochs@[j].session_token == session),
        decreases facts.epochs.len() - i,
    {
        let row = &facts.epochs[i];
        if row.generation == route.generation && row.session_token == token && same(
            row.session_epoch.as_str(),
            route.session_epoch.as_str(),
        ) {
            return true;
        }
        i = i + 1;
    }
    false
}

/// What a request has to do before it can be recorded.
pub enum RouteStep {
    /// The route was made in the session that asks.
    Bound(RouteRevision),
    /// The route is of another session: its generation may be bound to the
    /// session that asks, if it is complete.
    Rebind(RouteRevision),
}

/// Finds the route of a request.
pub fn begin_cover_request(facts: &CoverRequestFacts, asset_id: &str, session: u64) -> (r: Result<
    RouteStep,
    String,
>)
    ensures
        match r {
            Ok(RouteStep::Bound(route)) => {
                &&& session != 0 && has_route(*facts, asset_id@)
                &&& is_route_to(route, *facts, asset_id@)
                &&& session_matches(
                    facts.epochs@,
                    route.generation,
                    route.session_epoch@,
                    session,
                )
            },
            Ok(RouteStep::Rebind(route)) => {
                &&& session != 0 && has_route(*facts, asset_id@)
                &&& is_route_to(route, *facts, asset_id@)
                &&& !session_matches(
                    facts.epochs@,
                    route.generation,
                    route.session_epoch@,
                    session,
                )
            },
            Err(text) => if session == 0 {
                text@ == "登录状态已失效"@
            } else {
                !has_route(*facts, asset_id@) && text@ == "资源尚未完成索引"@
            },
        },
{
    if session == 0 {
        return Err("登录状态已失效".to_owned());
    }
    match route_revision(facts, asset_id) {
        Ok(route) => if route_session_matches(facts, &route, session) {
            Ok(RouteStep::Bound(route))
        } else {
            Ok(RouteStep::Rebind(route))
        },
        Err(text) => Err(text),
    }
}

/// The route of a request after its generation was offered to the session
/// that asks, with what is stored then. Where nothing was bound the route
/// stays; a route of another session is refused.
pub fn rebound_route(
    facts: &CoverRequestFacts,
    asset_id: &str,
    session: u64,
    route: RouteRevision,
    rebound: Result<bool, String>,
) -> (r: Result<RouteRevision, String>)
    ensures
        match rebound {
            Err(_) => r matches Err(text) && text@ == "登录状态已失效"@,
            Ok(false) => if session_matches(
                facts.epochs@,
                route.generation,
                route.session_epoch@,
                session,
            ) {
                r == Ok::<RouteRevision, String>(route)
            } else {
                r matches Err(text) && text@ == "登录状态已失效"@
            },
            Ok(true) => if !has_route(*facts, asset_id@) {
                r matches Err(text) && text@ == "资源尚未完成索引"@
            } else {
                match r {
                    Ok(found) => is_route_to(found, *facts, asset_id@) && session_matches(
                        facts.epochs@,
                        found.generation,
                        found.session_epoch@,
                        session,
                    ),
                    Err(text) => text@ == "登录状态已失效"@ && exists|found: RouteRevision|
                        #[trigger] is_route_to(found, *facts, asset_id@) && !session_matches(
                            facts.epochs@,
                            found.generation,
                            found.session_epoch@,
                            session,
                        ),
                }
            },
        },
{
    let current = match rebound {
        Err(_) => {
            return Err("登录状态已失效".to_owned());
        },
        Ok(false) => route,
        Ok(true) => match route_revision(facts, asset_id) {
            Ok(found) => found,
            Err(text) => {
                return Err(text);
            },
        },
    };
    if route_session_matches(facts, &current, session) {
        Ok(current)
    } else {
        proof {
            assert(rebound == Ok::<bool, String>(true) ==> is_route_to(current, *facts, asset_id@));
        }
        Err("登录状态已失效".to_owned())
    }
}

// ------------------------------------------------------------------
// Recording a demand
// ------------------------------------------------------------------

/// The row of the asset in the index.
pub open spec fn index_row(index: Seq<IndexRow>, id: Seq<char>, n: int) -> Option<int>
    decreases n,
{
    if n <= 0 {
        None
    } else {
        match index_row(index, id, n - 1) {
            Some(i) => Some(i),
            None => if index[n - 1].id@ == id {
                Some(n - 1)
            } else {
                None
            },
        }
    }
}

fn find_index_row(index: &Vec<IndexRow>, id: &str) -> (r: Option<usize>)
    ensures
        match r {
            Some(i) => i < index.len() && index_row(index@, id@, index@.len() as int) == Some(
                i as int,
            ),
            None => index_row(index@, id@, index@.len() as int) is None,
        },
{
    let mut i: usize = 0;
    while i < index.len()
        invariant
            i <= index.len(),
            index_row(index@, id@, i as int) is None,
        decreases index.len() - i,
    {
        if same(index[i].id.as_str(), id) {
            proof {
                assert(index_row(index@, id@, i + 1) == Some(i as int));
                lemma_first_row_stays(index@, id@, i + 1, index@.len() as int);
            }
            return Some(i);
        }
        i = i + 1;
    }
    None
}

proof fn lemma_first_row_stays(index: Seq<IndexRow>, id: Seq<char>, m: int, n: int)
    requires
        0 <= m <= n,
        index_row(index, id, m) is Some,
    ensures
        index_row(index, id, n) == index_row(index, id, m),
    decreases n - m,
{
    if m < n {
        lemma_first_row_stays(index, id, m, n - 1);
    }
}

/// The latest preview of the asset: that of the highest generation.
pub open spec fn latest_preview(previews: Seq<PreviewRow>, id: Seq<char>, n: int) -> Option<int>
    decreases n,
{
    if n <= 0 {
        None
    } else if previews[n - 1].asset_id@ != id {
        latest_preview(previews, id, n - 1)
    } else {
        match latest_preview(previews, id, n - 1) {
            Some(i) => if previews[i].generation >= previews[n - 1].generation {
                Some(i)
            } else {
                Some(n - 1)
            },
            None => Some(n - 1),
        }
    }
}

fn find_latest_preview(previews: &Vec<PreviewRow>, id: &str) -> (r: Option<usize>)
    ensures
        match r {
            Some(i) => i < previews.len() && latest_preview(
                previews@,
                id@,
                previews@.len() as int,
            ) == Some(i as int),
            None => latest_preview(previews@, id@, previews@.len() as int) is None,
        },
{
    let mut found: Option<usize> = None;
    let mut i: usize = 0;
    while i < previews.len()
        invariant
            i <= previews.len(),
            match found {
                Some(k) => k < i && latest_preview(previews@, id@, i as int) == Some(k as int),
                None => latest_preview(previews@, id@, i as int) is None,
            },
        decreases previews.len() - i,
    {
        if same(previews[i].asset_id.as_str(), id) {
            match found {
                Some(k) => {
                    if previews[k].generation < previews[i].generation {
                        found = Some(i);
                    }
                },
                None => {
                    found = Some(i);
                },
            }
        }
        i = i + 1;
    }
    found
}

/// Whether the asset still exists: in the index, or in the scan that runs.
pub open spec fn is_live(facts: CoverRequestFacts, asset_id: Seq<char>) -> bool {
    ||| exists|i: int|
        0 <= i < facts.index@.len() && (#[trigger] facts.index@[i]).id@ == asset_id
            && !facts.index@[i].deleted
    ||| exists|i: int|
        0 <= i < facts.previews@.len() && is_live_preview(
            #[trigger] facts.previews@[i],
            asset_id,
            facts.running,
        )
}

fn asset_is_live(facts: &CoverRequestFacts, asset_id: &str) -> (r: bool)
    ensures
        r == is_live(*facts, asset_id@),
{
    let mut i: usize = 0;
    while i < facts.index.len()
        invariant
            i <= facts.index.len(),
            forall|j: int|
                0 <= j < i ==> !((#[trigger] facts.index@[j]).id@ == asset_id@
                    && !facts.index@[j].deleted),
        decreases facts.index.len() - i,
    {
        if !facts.index[i].deleted && same(facts.index[i].id.as_str(), asset_id) {
            assert(facts.index@[i as int].id@ == asset_id@);
            return true;
        }
        i = i + 1;
    }
    let mut k: usize = 0;
    while k < facts.previews.len()
        invariant
            k <= facts.previews.len(),
            forall|j: int|
                0 <= j < facts.index@.len() ==> !((#[trigger] facts.index@[j]).id@ == asset_id@
                    && !facts.index@[j].deleted),
            forall|j: int|
                0 <= j < k ==> !is_live_preview(
                    #[trigger] facts.previews@[j],
                    asset_id@,
                    facts.running,
                ),
        decreases facts.previews.len() - k,
    {
        if live_preview(&facts.previews[k], asset_id, facts.running) {
            assert(is_live_preview(facts.previews@[k as int], asset_id@, facts.running));
            return true;
        }
        k = k + 1;
    }
    false
}

/// The directory above a chosen representative: that of its live row in the
/// index, else that of its latest preview. Nothing where it is in neither.
pub open spec fn representative_parent(facts: CoverRequestFacts, id: Seq<char>) -> Option<
    Option<String>,
> {
    match index_row(facts.index@, id, facts.index@.len() as int) {
        Some(i) if !facts.index@[i].deleted => Some(facts.index@[i].parent_id),
        _ => match latest_preview(facts.previews@, id, facts.previews@.len() as int) {
            Some(i) => Some(facts.previews@[i].parent_asset_id),
            None => None,
        },
    }
}

fn find_representative_parent(facts: &CoverRequestFacts, id: &str) -> (r: Option<Option<String>>)
    ensures
        r == representative_parent(*facts, id@),
{
    match find_index_row(&facts.index, id) {
        Some(i) => {
            if !facts.index[i].deleted {
                return Some(facts.index[i].parent_id.clone());
            }
        },
        None => {},
    }
    match find_latest_preview(&facts.previews, id) {
        Some(i) => Some(facts.previews[i].parent_asset_id.clone()),
        None => None,
    }
}

/// Whether the asset is a directory, by the index or by its latest preview.
pub open spec fn is_directory(facts: CoverRequestFacts, asset_id: Seq<char>) -> bool {
    ||| (index_row(facts.index@, asset_id, facts.index@.len() as int) matches Some(i)
        && facts.index@[i].entry_type@ == "dir"@)
    ||| (latest_preview(facts.previews@, asset_id, facts.previews@.len() as int) matches Some(i)
        && facts.previews@[i].entry_type@ == "dir"@)
}

fn asset_is_directory(facts: &CoverRequestFacts, asset_id: &str) -> (r: bool)
    ensures
        r == is_directory(*facts, asset_id@),
{
    match find_index_row(&facts.index, asset_id) {
        Some(i) => {
            if same(facts.index[i].entry_type.as_str(), "dir") {
                return true;
            }
        },
        None => {},
    }
    match find_latest_preview(&facts.previews, asset_id) {
        Some(i) => same(facts.previews[i].entry_type.as_str(), "dir"),
        None => false,
    }
}

/// The text, where it is there and not empty.
pub open spec fn filled(o: Option<String>) -> Option<Seq<char>> {
    match o {
        Some(s) => if s@.len() > 0 {
            Some(s@)
        } else {
            None
        },
        None => None,
    }
}

/// The revision of the contents of an asset: what the index says of it, else
/// its latest preview, else the session in which it was found.
pub open spec fn content_revision(
    facts: CoverRequestFacts,
    asset_id: Seq<char>,
    epoch: Seq<char>,
) -> Seq<char> {
    let stored = match index_row(facts.index@, asset_id, facts.index@.len() as int) {
        Some(i) => filled(facts.index@[i].content_fingerprint),
        None => None,
    };
    let shown = match latest_preview(facts.previews@, asset_id, facts.previews@.len() as int) {
        Some(i) => filled(facts.previews@[i].content_fingerprint),
        None => None,
    };
    match stored {
        Some(text) => text,
        None => match shown {
            Some(text) => text,
            None => epoch,
        },
    }
}

fn find_content_revision(facts: &CoverRequestFacts, asset_id: &str, epoch: &str) -> (r: String)
    ensures
        r@ == content_revision(*facts, asset_id@, epoch@),
{
    match find_index_row(&facts.index, asset_id) {
        Some(i) => match &facts.index[i].content_fingerprint {
            Some(text) => {
                if !text.as_str().is_empty() {
                    return text.clone();
                }
            },
            None => {},
        },
        None => {},
    }
    match find_latest_preview(&facts.previews, asset_id) {
        Some(i) => match &facts.previews[i].content_fingerprint {
            Some(text) => {
                if !text.as_str().is_empty() {
                    return text.clone();
                }
            },
            None => {},
        },
        None => {},
    }
    epoch.to_owned()
}

/// The reason under which demanded covers are queued.
pub const DEMAND_REASON: &'static str = "visible";

/// The priority under which demanded covers are queued.
pub const DEMAND_PRIORITY: i64 = 300;

/// What a request records, in this order.
pub struct CoverDemand {
    /// The directory and the representative that its user chose for it.
    pub representative: Option<(String, String)>,
    /// The provider whose session must still be there.
    pub provider: Option<String>,
    /// The path and the id under which the provider knows the asset.
    pub register: Option<(String, String)>,
    pub key: CoverJobKey,
    pub generation: i64,
    pub session_epoch: String,
}

/// What a user chose as the representative, where it is not blank.
pub open spec fn chosen(selection: CoverSelectionDto) -> Option<Seq<char>> {
    match selection.explicit_asset_id {
        Some(id) => if is_blank(id@) {
            None
        } else {
            Some(id@)
        },
        None => None,
    }
}

/// Whether the configuration of the source has changed since the route was
/// made.
pub open spec fn is_reconfigured(facts: CoverRequestFacts, route: RouteRevision) -> bool {
    filled(facts.fingerprint) matches Some(current) && current != route.source_fingerprint@
}

/// Why a request is refused.
pub open spec fn request_refusal(
    facts: CoverRequestFacts,
    route: RouteRevision,
    asset_id: Seq<char>,
    selection: CoverSelectionDto,
) -> Option<Seq<char>> {
    if !is_live(facts, asset_id) {
        Some("远程资源已失效"@)
    } else if is_reconfigured(facts, route) {
        Some("书源配置已变更"@)
    } else if chosen(selection) matches Some(id) && representative_parent(facts, id) is None {
        Some("自定义封面资源已失效"@)
    } else {
        None
    }
}

/// The directory that a chosen representative stands for: the asset itself
/// where it is a directory, else the one above the representative.
pub open spec fn represented_directory(
    facts: CoverRequestFacts,
    asset_id: Seq<char>,
    selection: CoverSelectionDto,
) -> Option<Seq<char>> {
    match chosen(selection) {
        Some(id) => if is_directory(facts, asset_id) {
            Some(asset_id)
        } else {
            match representative_parent(facts, id) {
                Some(parent) => opt_text(parent),
                None => None,
            }
        },
        None => None,
    }
}

/// What a request for a cover records.
pub fn remote_cover_request(
    facts: &CoverRequestFacts,
    route: &RouteRevision,
    source_id: &str,
    asset_id: &str,
    selection: &CoverSelectionDto,
    profile: &CoverProfileDto,
) -> (r: Result<CoverDemand, String>)
    ensures
        match r {
            Ok(demand) => {
                &&& request_refusal(*facts, *route, asset_id@, *selection) is None
                &&& match demand.representative {
                    Some((directory, id)) => {
                        &&& represented_directory(*facts, asset_id@, *selection) == Some(
                            directory@,
                        )
                        &&& chosen(*selection) == Some(id@)
                    },
                    None => represented_directory(*facts, asset_id@, *selection) is None,
                }
                &&& opt_text(demand.provider) == (if route.provider_id@ == "unknown"@ {
                    None
                } else {
                    Some(route.provider_id@)
                })
                &&& match demand.register {
                    Some((path, id)) => {
                        &&& route.provider_id@ != "unknown"@
                        &&& path@ == route.logical_path@
                        &&& opt_text(route.provider_file_id) == Some(id@)
                    },
                    None => route.provider_id@ == "unknown"@ || route.provider_file_id is None,
                }
                &&& demand.key.source_id@ == source_id@
                &&& demand.key.asset_id@ == asset_id@
                &&& demand.key.content_revision@ == content_revision(
                    *facts,
                    asset_id@,
                    route.session_epoch@,
                )
                &&& demand.key.selection_revision@ == selection_text(*selection)
                &&& demand.key.profile@ == profile_text(*profile)
                &&& demand.generation == route.generation
                &&& demand.session_epoch == route.session_epoch
            },
            Err(text) => request_refusal(*facts, *route, asset_id@, *selection) == Some(text@),
        },
{
    if !asset_is_live(facts, asset_id) {
        return Err("远程资源已失效".to_owned());
    }
    match &facts.fingerprint {
        Some(current) => {
            if !current.as_str().is_empty() && !same(
                current.as_str(),
                route.source_fingerprint.as_str(),
            ) {
                return Err("书源配置已变更".to_owned());
            }
        },
        None => {},
    }
    let mut representative: Option<(String, String)> = None;
    match &selection.explicit_asset_id {
        Some(id) => {
            if !blank(id.as_str()) {
                let parent = match find_representative_parent(facts, id.as_str()) {
                    Some(parent) => parent,
                    None => {
                        return Err("自定义封面资源已失效".to_owned());
                    },
                };
                if asset_is_directory(facts, asset_id) {
                    representative = Some((asset_id.to_owned(), id.clone()));
                } else {
                    match parent {
                        Some(directory) => {
                            representative = Some((directory, id.clone()));
                        },
                        None => {},
                    }
                }
            }
        },
        None => {},
    }
    let mut provider: Option<String> = None;
    let mut register: Option<(String, String)> = None;
    if !same(route.provider_id.as_str(), "unknown") {
        provider = Some(route.provider_id.clone());
        match &route.provider_file_id {
            Some(id) => {
                register = Some((route.logical_path.clone(), id.clone()));
            },
            None => {},
        }
    }
    let content = find_content_revision(facts, asset_id, route.session_epoch.as_str());
    Ok(
        CoverDemand {
            representative,
            provider,
            register,
            key: CoverJobKey {
                source_id: source_id.to_owned(),
                asset_id: asset_id.to_owned(),
                content_revision: content,
                selection_revision: selection_key(selection),
                profile: profile_key(profile),
            },
            generation: route.generation,
            session_epoch: route.session_epoch.clone(),
        },
    )
}

/// What the queue holds of a job after a request.
pub struct QueuedCover {
    pub state: CoverJobState,
    pub updated_at: i64,
    pub error_code: Option<String>,
    pub next_attempt_at: Option<i64>,
}

/// What a request tells its caller.
pub fn demanded_state(job: &QueuedCover) -> (r: RemoteCoverStateDto)
    ensures
        r.state@ == job.state.name(),
        r.revision == job.updated_at,
        r.ready == (job.state == CoverJobState::Ready),
        r.error_code == job.error_code,
        r.retry_at == job.next_attempt_at,
        !r.is_previous_revision,
{
    RemoteCoverStateDto {
        state: job.state.as_str().to_owned(),
        revision: job.updated_at,
        ready: job.state == CoverJobState::Ready,
        error_code: job.error_code.clone(),
        retry_at: job.next_attempt_at,
        is_previous_revision: false,
    }
}

// ------------------------------------------------------------------
// Reading
// ------------------------------------------------------------------

/// What a read gives, and whether the worker of the source is woken: a cover
/// that is missing may have been set back to pending, and must not stay so
/// without a worker.
pub fn remote_cover_read(cached: Option<(Vec<u8>, u32, u32)>) -> (r: (Option<PageImage>, bool))
    ensures
        r.1 == cached is None,
        match cached {
            Some((rgba, width, height)) => r.0 == Some((PageImage { rgba, width, height })),
            None => r.0 is None,
        },
{
    match cached {
        Some((rgba, width, height)) => (Some(PageImage { rgba, width, height }), false),
        None => (None, true),
    }
}

/// A stored job or variant of a cover, by what identifies it.
pub struct CoverRecord {
    pub source_id: String,
    pub asset_id: String,
    pub selection_revision: String,
    pub profile: String,
}

/// Whether a record is of a cover.
pub open spec fn is_record_of(
    record: CoverRecord,
    source_id: Seq<char>,
    asset_id: Seq<char>,
    selection: Seq<char>,
    profile: Seq<char>,
) -> bool {
    &&& record.source_id@ == source_id && record.asset_id@ == asset_id
    &&& record.selection_revision@ == selection && record.profile@ == profile
}

/// What identifies the cover whose state is read.
pub fn cover_state_query(
    source_id: &str,
    asset_id: &str,
    selection: &CoverSelectionDto,
    profile: &CoverProfileDto,
) -> (r: Option<CoverRecord>)
    ensures
        match r {
            Some(query) => !is_blank(source_id@) && !is_blank(asset_id@) && is_record_of(
                query,
                stripped(source_id@),
                stripped(asset_id@),
                selection_text(*selection),
                profile_text(*profile),
            ),
            None => is_blank(source_id@) || is_blank(asset_id@),
        },
{
    let source = trim(source_id, CharClass::White);
    let asset = trim(asset_id, CharClass::White);
    if source.as_str().is_empty() || asset.as_str().is_empty() {
        return None;
    }
    Some(
        CoverRecord {
            source_id: source,
            asset_id: asset,
            selection_revision: selection_key(selection),
            profile: profile_key(profile),
        },
    )
}

/// Whether any record is of the cover that is asked for.
pub open spec fn is_recorded(records: Seq<CoverRecord>, query: CoverRecord) -> bool {
    exists|i: int|
        0 <= i < records.len() && is_record_of(
            #[trigger] records[i],
            query.source_id@,
            query.asset_id@,
            query.selection_revision@,
            query.profile@,
        )
}

/// The durable state of a cover, or nothing where no job and no variant of
/// it is stored.
pub fn remote_cover_state(
    query: &CoverRecord,
    records: &Vec<CoverRecord>,
    state: &CatalogCoverState,
) -> (r: Option<RemoteCoverStateDto>)
    ensures
        r == (if is_recorded(records@, *query) {
            Some(cover_state_of(*state))
        } else {
            None
        }),
{
    let mut i: usize = 0;
    while i < records.len()
        invariant
            i <= records.len(),
            forall|j: int|
                0 <= j < i ==> !is_record_of(
                    #[trigger] records@[j],
                    query.source_id@,
                    query.asset_id@,
                    query.selection_revision@,
                    query.profile@,
                ),
        decreases records.len() - i,
    {
        let record = &records[i];
        if same(record.source_id.as_str(), query.source_id.as_str()) && same(
            record.asset_id.as_str(),
            query.asset_id.as_str(),
        ) && same(record.selection_revision.as_str(), query.selection_revision.as_str()) && same(
            record.profile.as_str(),
            query.profile.as_str(),
        ) {
            return Some(cover_dto(state));
        }
        i = i + 1;
    }
    None
}

// ------------------------------------------------------------------
// Retrying
// ------------------------------------------------------------------

/// The source whose failed covers are queued again; nothing is done for a
/// blank one.
pub fn remote_cover_retry_failed(source_id: &str) -> (r: Option<String>)
    ensures
        opt_text(r) == (if is_blank(source_id@) {
            None
        } else {
            Some(stripped(source_id@))
        }),
{
    let id = trim(source_id, CharClass::White);
    if id.as_str().is_empty() {
        None
    } else {
        Some(id)
    }
}

/// Which failed covers are queued again.
#[derive(Debug)]
pub struct FailedRetry {
    pub source_id: String,
    /// Failures under other profiles stay as they are.
    pub profile: String,
}

/// The failed covers that are queued again: those of the source under the
/// profile of the quality that is set now.
pub fn failed_retry(source_id: String, quality: Option<String>) -> (r: FailedRetry)
    ensures
        r.source_id == source_id,
        r.profile@ == quality_profile(quality),
{
    FailedRetry { source_id, profile: cover_quality_profile(quality) }
}

/// What follows once failed covers have been queued again.
#[derive(Debug)]
pub struct RetryFailedOutcome {
    pub requeued: u32,
    /// The notice that covers of the source may have changed.
    pub notice: Option<CoverRevisionEvent>,
    /// Whether the workers of the source are woken.
    pub wake: bool,
}

/// What follows once so many failed covers have been queued again: a notice
/// for the whole source and a wake, exactly where there was one.
pub fn failed_covers_requeued(retry: &FailedRetry, requeued: u32) -> (r: RetryFailedOutcome)
    ensures
        r.requeued == requeued,
        r.wake == (requeued > 0),
        match r.notice {
            Some(event) => requeued > 0 && event.source_id == retry.source_id && event.asset_id
                is None,
            None => requeued == 0,
        },
{
    let notice = if requeued > 0 {
        Some(CoverRevisionEvent { source_id: retry.source_id.clone(), asset_id: None })
    } else {
        None
    };
    RetryFailedOutcome { requeued, notice, wake: requeued > 0 }
}

/// The statement that queues failed and waiting covers of a source again, in
/// the generation and the session of their present routes.
pub const RETRY_STATEMENT: &'static str =
    "UPDATE remote_cover_job SET state='pending',attempt=0,next_attempt_at=NULL, error_code=NULL,updated_at=?1, generation=COALESCE((SELECT route.generation FROM remote_asset_route route WHERE route.source_id=remote_cover_job.source_id AND route.asset_id=remote_cover_job.asset_id),generation), session_epoch=COALESCE((SELECT route.session_epoch FROM remote_asset_route route WHERE route.source_id=remote_cover_job.source_id AND route.asset_id=remote_cover_job.asset_id),session_epoch) WHERE source_id=?2 AND state IN ('retry_wait','failed')";

/// As many question marks as there are values, with commas between them.
pub open spec fn marks(n: nat) -> Seq<char>
    decreases n,
{
    if n == 0 {
        Seq::<char>::empty()
    } else if n == 1 {
        "?"@
    } else {
        marks((n - 1) as nat) + ",?"@
    }
}

/// The statement for some assets; for none, that for all of the source.
pub open spec fn retry_sql(assets: nat) -> Seq<char> {
    if assets == 0 {
        RETRY_STATEMENT@
    } else {
        RETRY_STATEMENT@ + " AND asset_id IN ("@ + marks(assets) + ")"@
    }
}

/// A statement that queues covers again, and its values.
pub struct RetryPlan {
    pub sql: String,
    pub now: i64,
    pub source_id: String,
    pub asset_ids: Vec<String>,
}

/// Queues the covers of some assets again, or those of the whole source. It
/// is refused without a session, for a source that is not known, and where
/// the provider does not know the session.
pub fn remote_cover_retry(
    source_id: String,
    session: u64,
    source_known: bool,
    session_known: bool,
    asset_ids: Vec<String>,
    now: i64,
) -> (r: Result<RetryPlan, String>)
    ensures
        match r {
            Ok(plan) => {
                &&& session != 0 && source_known && session_known
                &&& plan.sql@ == retry_sql(asset_ids@.len())
                &&& plan.now == now
                &&& plan.source_id == source_id
                &&& plan.asset_ids == asset_ids
            },
            Err(text) => if session == 0 {
                text@ == "登录状态已失效"@
            } else if !source_known {
                text@ == "书源不存在"@
            } else {
                !session_known && text@ == "登录状态已失效"@
            },
        },
{
    if session == 0 {
        return Err("登录状态已失效".to_owned());
    }
    if !source_known {
        return Err("书源不存在".to_owned());
    }
    if !session_known {
        return Err("登录状态已失效".to_owned());
    }
    let count: usize = asset_ids.len();
    let mut sql = RETRY_STATEMENT.to_owned();
    if count > 0 {
        let mut list = String::new();
        let mut i: usize = 0;
        while i < count
            invariant
                i <= count,
                list@ == marks(i as nat),
            decreases count - i,
        {
            if i == 0 {
                list = "?".to_owned();
            } else {
                list.append(",?");
            }
            i = i + 1;
        }
        sql = cat2(sql.as_str(), " AND asset_id IN (");
        sql.append(list.as_str());
        sql.append(")");
    }
    Ok(RetryPlan { sql, now, source_id, asset_ids })
}

// ------------------------------------------------------------------
// Resetting covers to one profile
// ------------------------------------------------------------------

/// A job of the cover queue.
pub struct CoverJobRecord {
    pub job_key: String,
    pub source_id: String,
    pub profile: String,
    pub state: CoverJobState,
    pub attempt: i64,
    pub error_code: Option<String>,
    pub next_attempt_at: Option<i64>,
    pub lease_owner: Option<String>,
    pub lease_until: Option<i64>,
    pub long_retry_pending: bool,
    pub long_retry_consumed: bool,
    pub long_retry_not_before: Option<i64>,
    pub updated_at: i64,
}

/// A stored cover of one profile.
pub struct CoverVariantRecord {
    pub source_id: String,
    pub asset_id: String,
    pub profile: String,
    pub blob_key: Option<String>,
}

/// The bytes of a cover, by the path of their file.
pub struct CoverBlobRecord {
    pub blob_key: String,
    pub relative_path: String,
}

/// What is stored of covers.
pub struct CoverTables {
    pub jobs: Vec<CoverJobRecord>,
    pub variants: Vec<CoverVariantRecord>,
    pub blobs: Vec<CoverBlobRecord>,
    /// The blobs that something else refers to.
    pub refs: Vec<String>,
}

/// A job as a reset leaves it: a failed one starts over, every other stays.
pub open spec fn restarted(job: CoverJobRecord, now: i64) -> CoverJobRecord {
    if job.state == CoverJobState::Failed {
        CoverJobRecord {
            state: CoverJobState::Pending,
            attempt: 0,
            error_code: None,
            next_attempt_at: None,
            lease_owner: None,
            lease_until: None,
            long_retry_pending: false,
            long_retry_consumed: false,
            long_retry_not_before: None,
            updated_at: now,
            ..job
        }
    } else {
        job
    }
}

/// The jobs that a reset leaves: those of the profile.
pub open spec fn reset_jobs(jobs: Seq<CoverJobRecord>, profile: Seq<char>, now: i64) -> Seq<
    CoverJobRecord,
>
    decreases jobs.len(),
{
    if jobs.len() == 0 {
        Seq::<CoverJobRecord>::empty()
    } else {
        let rest = reset_jobs(jobs.drop_last(), profile, now);
        if jobs.last().profile@ == profile {
            rest.push(restarted(jobs.last(), now))
        } else {
            rest
        }
    }
}

/// How many failed jobs of the profile there are.
pub open spec fn failed_jobs(jobs: Seq<CoverJobRecord>, profile: Seq<char>) -> nat
    decreases jobs.len(),
{
    if jobs.len() == 0 {
        0
    } else {
        failed_jobs(jobs.drop_last(), profile) + (if jobs.last().profile@ == profile
            && jobs.last().state == CoverJobState::Failed {
            1nat
        } else {
            0nat
        })
    }
}

/// The variants that a reset leaves: those of the profile.
pub open spec fn reset_variants(variants: Seq<CoverVariantRecord>, profile: Seq<char>) -> Seq<
    CoverVariantRecord,
>
    decreases variants.len(),
{
    if variants.len() == 0 {
        Seq::<CoverVariantRecord>::empty()
    } else {
        let rest = reset_variants(variants.drop_last(), profile);
        if variants.last().profile@ == profile {
            rest.push(variants.last())
        } else {
            rest
        }
    }
}

/// Whether a variant or anything else refers to a blob.
pub open spec fn is_referred(
    blob_key: Seq<char>,
    variants: Seq<CoverVariantRecord>,
    refs: Seq<String>,
) -> bool {
    ||| listed(refs, blob_key)
    ||| blob_key.len() > 0 && exists|i: int|
        0 <= i < variants.len() && opt_text((#[trigger] variants[i]).blob_key) == Some(blob_key)
}

/// The blobs that a reset leaves: those that are still referred to.
pub open spec fn kept_blobs(
    blobs: Seq<CoverBlobRecord>,
    variants: Seq<CoverVariantRecord>,
    refs: Seq<String>,
) -> Seq<CoverBlobRecord>
    decreases blobs.len(),
{
    if blobs.len() == 0 {
        Seq::<CoverBlobRecord>::empty()
    } else {
        let rest = kept_blobs(blobs.drop_last(), variants, refs);
        if is_referred(blobs.last().blob_key@, variants, refs) {
            rest.push(blobs.last())
        } else {
            rest
        }
    }
}

/// The files of the blobs that go.
pub open spec fn orphan_files(
    blobs: Seq<CoverBlobRecord>,
    variants: Seq<CoverVariantRecord>,
    refs: Seq<String>,
) -> Seq<Seq<char>>
    decreases blobs.len(),
{
    if blobs.len() == 0 {
        Seq::<Seq<char>>::empty()
    } else {
        let rest = orphan_files(blobs.drop_last(), variants, refs);
        if !is_referred(blobs.last().blob_key@, variants, refs)
            && blobs.last().relative_path@.len() > 0 {
            rest.push(blobs.last().relative_path@)
        } else {
            rest
        }
    }
}

/// The sources that have a job or a variant.
pub open spec fn sources_of(
    jobs: Seq<CoverJobRecord>,
    variants: Seq<CoverVariantRecord>,
) -> Set<Seq<char>> {
    Set::new(
        |x: Seq<char>|
            (exists|i: int| 0 <= i < jobs.len() && (#[trigger] jobs[i]).source_id@ == x) || (exists|
                i: int,
            |
                0 <= i < variants.len() && (#[trigger] variants[i]).source_id@ == x),
    )
}

/// What a reset has done.
pub struct RemoteCoverResetDto {
    /// The variants of other profiles that were deleted.
    pub purged_variants: u32,
    /// The jobs of other profiles that were deleted.
    pub purged_jobs: u32,
    /// The blobs without a reference that were deleted.
    pub purged_blobs: u32,
    /// The failed jobs that were queued again.
    pub requeued_jobs: u32,
    /// The sources whose covers have a new revision.
    pub sources: u32,
    /// The profile that counts now.
    pub profile: String,
}

/// What a reset leaves stored, and what is left to do for it.
pub struct CoverReset {
    pub tables: CoverTables,
    /// The files to delete.
    pub files: Vec<String>,
    /// The sources whose covers get a new revision.
    pub sources: Vec<String>,
    pub report: RemoteCoverResetDto,
}

fn restart(job: &CoverJobRecord, now: i64) -> (r: CoverJobRecord)
    ensures
        r == restarted(*job, now),
{
    let failed = job.state == CoverJobState::Failed;
    CoverJobRecord {
        job_key: job.job_key.clone(),
        source_id: job.source_id.clone(),
        profile: job.profile.clone(),
        state: if failed {
            CoverJobState::Pending
        } else {
            job.state
        },
        attempt: if failed {
            0
        } else {
            job.attempt
        },
        error_code: if failed {
            None
        } else {
            job.error_code.clone()
        },
        next_attempt_at: if failed {
            None
        } else {
            job.next_attempt_at
        },
        lease_owner: if failed {
            None
        } else {
            job.lease_owner.clone()
        },
        lease_until: if failed {
            None
        } else {
            job.lease_until
        },
        long_retry_pending: !failed && job.long_retry_pending,
        long_retry_consumed: !failed && job.long_retry_consumed,
        long_retry_not_before: if failed {
            None
        } else {
            job.long_retry_not_before
        },
        updated_at: if failed {
            now
        } else {
            job.updated_at
        },
    }
}

fn blob_is_referred(
    blob_key: &str,
    variants: &Vec<CoverVariantRecord>,
    refs: &Vec<String>,
) -> (r: bool)
    ensures
        r == is_referred(blob_key@, variants@, refs@),
{
    if list_has(refs, blob_key) {
        return true;
    }
    if blob_key.is_empty() {
        return false;
    }
    let mut i: usize = 0;
    while i < variants.len()
        invariant
            i <= variants.len(),
            blob_key@.len() > 0,
            forall|j: int|
                0 <= j < i ==> opt_text((#[trigger] variants@[j]).blob_key) != Some(blob_key@),
        decreases variants.len() - i,
    {
        match &variants[i].blob_key {
            Some(key) => {
                if same(key.as_str(), blob_key) {
                    assert(opt_text(variants@[i as int].blob_key) == Some(blob_key@));
                    return true;
                }
            },
            None => {},
        }
        i = i + 1;
    }
    false
}

fn collect_sources(jobs: &Vec<CoverJobRecord>, variants: &Vec<CoverVariantRecord>) -> (r: Vec<
    String,
>)
    ensures
        all_differ(r@),
        set_of(r@) == sources_of(jobs@, variants@),
        r.len() <= jobs.len() + variants.len(),
{
    let mut out: Vec<String> = Vec::new();
    let mut i: usize = 0;
    proof {
        assert(set_of(out@) =~= sources_of(jobs@.take(0), variants@.take(0)));
    }
    while i < jobs.len()
        invariant
            i <= jobs.len(),
            all_differ(out@),
            out.len() <= i,
            set_of(out@) == sources_of(jobs@.take(i as int), variants@.take(0)),
        decreases jobs.len() - i,
    {
        let ghost before = jobs@.take(i as int);
        let ghost after = jobs@.take(i + 1);
        let ghost held = out@;
        add_unique(&mut out, jobs[i].source_id.as_str());
        proof {
            lemma_set_of_len(held);
            lemma_set_of_len(out@);
            let id = jobs@[i as int].source_id@;
            let none = variants@.take(0);
            assert forall|x: Seq<char>| #[trigger] sources_of(after, none).contains(x)
                <==> sources_of(before, none).insert(id).contains(x) by {
                if exists|k: int| 0 <= k < before.len() && (#[trigger] before[k]).source_id@ == x {
                    let k = choose|k: int|
                        0 <= k < before.len() && (#[trigger] before[k]).source_id@ == x;
                    assert(after[k].source_id@ == x);
                }
                if x == id {
                    assert(after[i as int].source_id@ == x);
                }
                if exists|k: int| 0 <= k < after.len() && (#[trigger] after[k]).source_id@ == x {
                    let k = choose|k: int|
                        0 <= k < after.len() && (#[trigger] after[k]).source_id@ == x;
                    if k < i {
                        assert(before[k].source_id@ == x);
                    }
                }
            }
            assert(sources_of(after, none) =~= sources_of(before, none).insert(id));
        }
        i = i + 1;
    }
    assert(jobs@.take(i as int) =~= jobs@);
    let mut k: usize = 0;
    while k < variants.len()
        invariant
            k <= variants.len(),
            all_differ(out@),
            out.len() <= jobs.len() + k,
            set_of(out@) == sources_of(jobs@, variants@.take(k as int)),
        decreases variants.len() - k,
    {
        let ghost before = variants@.take(k as int);
        let ghost after = variants@.take(k + 1);
        let ghost held = out@;
        add_unique(&mut out, variants[k].source_id.as_str());
        proof {
            lemma_set_of_len(held);
            lemma_set_of_len(out@);
            let id = variants@[k as int].source_id@;
            assert forall|x: Seq<char>| #[trigger] sources_of(jobs@, after).contains(x)
                <==> sources_of(jobs@, before).insert(id).contains(x) by {
                if exists|j: int| 0 <= j < before.len() && (#[trigger] before[j]).source_id@ == x {
                    let j = choose|j: int|
                        0 <= j < before.len() && (#[trigger] before[j]).source_id@ == x;
                    assert(after[j].source_id@ == x);
                }
                if x == id {
                    assert(after[k as int].source_id@ == x);
                }
                if exists|j: int| 0 <= j < after.len() && (#[trigger] after[j]).source_id@ == x {
                    let j = choose|j: int|
                        0 <= j < after.len() && (#[trigger] after[j]).source_id@ == x;
                    if j < k {
                        assert(before[j].source_id@ == x);
                    }
                }
            }
            assert(sources_of(jobs@, after) =~= sources_of(jobs@, before).insert(id));
        }
        k = k + 1;
    }
    assert(variants@.take(k as int) =~= variants@);
    out
}

/// Resets covers to one profile: what is stored for other profiles goes, with
/// the blobs that nothing refers to any more; failed jobs of the profile
/// start over. Jobs that wait for a login or have no cover to give stay as
/// they are.
pub fn remote_cover_reset_to_current_profile(
    tables: &CoverTables,
    profile: &str,
    now: i64,
) -> (r: CoverReset)
    requires
        tables.jobs@.len() + tables.variants@.len() <= u32::MAX,
        tables.blobs@.len() <= u32::MAX,
    ensures
        r.tables.jobs@ == reset_jobs(tables.jobs@, profile@, now),
        r.tables.variants@ == reset_variants(tables.variants@, profile@),
        r.tables.blobs@ == kept_blobs(
            tables.blobs@,
            reset_variants(tables.variants@, profile@),
            tables.refs@,
        ),
        r.tables.refs@ == tables.refs@,
        texts(r.files@) == orphan_files(
            tables.blobs@,
            reset_variants(tables.variants@, profile@),
            tables.refs@,
        ),
        all_differ(r.sources@),
        set_of(r.sources@) == sources_of(r.tables.jobs@, r.tables.variants@),
        r.report.purged_jobs == tables.jobs@.len() - r.tables.jobs@.len(),
        r.report.purged_variants == tables.variants@.len() - r.tables.variants@.len(),
        r.report.purged_blobs == tables.blobs@.len() - r.tables.blobs@.len(),
        r.report.requeued_jobs == failed_jobs(tables.jobs@, profile@),
        r.report.sources == r.sources@.len(),
        r.report.profile@ == profile@,
{
    let mut jobs: Vec<CoverJobRecord> = Vec::new();
    let mut requeued: u32 = 0;
    let mut i: usize = 0;
    while i < tables.jobs.len()
        invariant
            tables.jobs@.len() + tables.variants@.len() <= u32::MAX,
            i <= tables.jobs.len(),
            jobs@ == reset_jobs(tables.jobs@.take(i as int), profile@, now),
            jobs.len() <= i,
            requeued == failed_jobs(tables.jobs@.take(i as int), profile@),
            requeued <= i,
        decreases tables.jobs.len() - i,
    {
        let job = &tables.jobs[i];
        assert(tables.jobs@.take(i + 1).drop_last() =~= tables.jobs@.take(i as int));
        assert(tables.jobs@.take(i + 1).last() == *job);
        if same(job.profile.as_str(), profile) {
            if job.state == CoverJobState::Failed {
                requeued = requeued + 1;
            }
            jobs.push(restart(job, now));
        }
        i = i + 1;
    }
    assert(tables.jobs@.take(i as int) =~= tables.jobs@);
    let mut variants: Vec<CoverVariantRecord> = Vec::new();
    let mut k: usize = 0;
    while k < tables.variants.len()
        invariant
            tables.jobs@.len() + tables.variants@.len() <= u32::MAX,
            k <= tables.variants.len(),
            variants@ == reset_variants(tables.variants@.take(k as int), profile@),
            variants.len() <= k,
        decreases tables.variants.len() - k,
    {
        let variant = &tables.variants[k];
        assert(tables.variants@.take(k + 1).drop_last() =~= tables.variants@.take(k as int));
        assert(tables.variants@.take(k + 1).last() == *variant);
        if same(variant.profile.as_str(), profile) {
            let kept = CoverVariantRecord {
                source_id: variant.source_id.clone(),
                asset_id: variant.asset_id.clone(),
                profile: variant.profile.clone(),
                blob_key: variant.blob_key.clone(),
            };
            assert(kept == *variant);
            variants.push(kept);
        }
        k = k + 1;
    }
    assert(tables.variants@.take(k as int) =~= tables.variants@);
    let mut blobs: Vec<CoverBlobRecord> = Vec::new();
    let mut files: Vec<String> = Vec::new();
    let mut b: usize = 0;
    assert(texts(files@) =~= Seq::<Seq<char>>::empty());
    while b < tables.blobs.len()
        invariant
            tables.blobs@.len() <= u32::MAX,
            b <= tables.blobs.len(),
            blobs@ == kept_blobs(tables.blobs@.take(b as int), variants@, tables.refs@),
            blobs.len() <= b,
            texts(files@) == orphan_files(
                tables.blobs@.take(b as int),
                variants@,
                tables.refs@,
            ),
        decreases tables.blobs.len() - b,
    {
        let blob = &tables.blobs[b];
        assert(tables.blobs@.take(b + 1).drop_last() =~= tables.blobs@.take(b as int));
        assert(tables.blobs@.take(b + 1).last() == *blob);
        if blob_is_referred(blob.blob_key.as_str(), &variants, &tables.refs) {
            let kept = CoverBlobRecord {
                blob_key: blob.blob_key.clone(),
                relative_path: blob.relative_path.clone(),
            };
            assert(kept == *blob);
            blobs.push(kept);
        } else if !blob.relative_path.as_str().is_empty() {
            let ghost before = files@;
            files.push(blob.relative_path.clone());
            assert(texts(files@) =~= texts(before).push(blob.relative_path@));
        }
        b = b + 1;
    }
    assert(tables.blobs@.take(b as int) =~= tables.blobs@);
    let sources = collect_sources(&jobs, &variants);
    let report = RemoteCoverResetDto {
        purged_variants: (tables.variants.len() - variants.len()) as u32,
        purged_jobs: (tables.jobs.len() - jobs.len()) as u32,
        purged_blobs: (tables.blobs.len() - blobs.len()) as u32,
        requeued_jobs: requeued,
        sources: sources.len() as u32,
        profile: profile.to_owned(),
    };
    CoverReset {
        tables: CoverTables { jobs, variants, blobs, refs: clone_list(&tables.refs) },
        files,
        sources,
        report,
    }
}

/// A second reset finds nothing left to do.
pub proof fn law_reset_is_idempotent(
    jobs: Seq<CoverJobRecord>,
    variants: Seq<CoverVariantRecord>,
    blobs: Seq<CoverBlobRecord>,
    refs: Seq<String>,
    profile: Seq<char>,
    now: i64,
    later: i64,
)
    ensures
        reset_jobs(reset_jobs(jobs, profile, now), profile, later) == reset_jobs(
            jobs,
            profile,
            now,
        ),
        failed_jobs(reset_jobs(jobs, profile, now), profile) == 0,
        reset_variants(reset_variants(variants, profile), profile) == reset_variants(
            variants,
            profile,
        ),
        ({
            let left = reset_variants(variants, profile);
            kept_blobs(kept_blobs(blobs, left, refs), left, refs) == kept_blobs(blobs, left, refs)
        }),
{
    lemma_jobs_reset_twice(jobs, profile, now, later);
    lemma_variants_reset_twice(variants, profile);
    lemma_blobs_kept_twice(blobs, reset_variants(variants, profile), refs);
}

proof fn lemma_jobs_reset_twice(
    jobs: Seq<CoverJobRecord>,
    profile: Seq<char>,
    now: i64,
    later: i64,
)
    ensures
        reset_jobs(reset_jobs(jobs, profile, now), profile, later) == reset_jobs(
            jobs,
            profile,
            now,
        ),
        failed_jobs(reset_jobs(jobs, profile, now), profile) == 0,
    decreases jobs.len(),
{
    if jobs.len() > 0 {
        lemma_jobs_reset_twice(jobs.drop_last(), profile, now, later);
        let once = reset_jobs(jobs, profile, now);
        if jobs.last().profile@ == profile {
            assert(once.drop_last() =~= reset_jobs(jobs.drop_last(), profile, now));
            assert(once.last().profile@ == profile);
            assert(restarted(once.last(), later) == once.last());
        }
    }
}

proof fn lemma_variants_reset_twice(variants: Seq<CoverVariantRecord>, profile: Seq<char>)
    ensures
        reset_variants(reset_variants(variants, profile), profile) == reset_variants(
            variants,
            profile,
        ),
    decreases variants.len(),
{
    if variants.len() > 0 {
        lemma_variants_reset_twice(variants.drop_last(), profile);
        let once = reset_variants(variants, profile);
        if variants.last().profile@ == profile {
            assert(once.drop_last() =~= reset_variants(variants.drop_last(), profile));
        }
    }
}

proof fn lemma_blobs_kept_twice(
    blobs: Seq<CoverBlobRecord>,
    variants: Seq<CoverVariantRecord>,
    refs: Seq<String>,
)
    ensures
        kept_blobs(kept_blobs(blobs, variants, refs), variants, refs) == kept_blobs(
            blobs,
            variants,
            refs,
        ),
    decreases blobs.len(),
{
    if blobs.len() > 0 {
        lemma_blobs_kept_twice(blobs.drop_last(), variants, refs);
        let once = kept_blobs(blobs, variants, refs);
        if is_referred(blobs.last().blob_key@, variants, refs) {
            assert(once.drop_last() =~= kept_blobs(blobs.drop_last(), variants, refs));
        }
    }
}

/// A reset leaves nothing of another profile, and does not touch a job of
/// the profile that has not failed.
pub proof fn law_reset_keeps_what_is_good(
    jobs: Seq<CoverJobRecord>,
    profile: Seq<char>,
    now: i64,
    i: int,
)
    requires
        0 <= i < jobs.len(),
    ensures
        forall|k: int|
            0 <= k < reset_jobs(jobs, profile, now).len() ==> (#[trigger] reset_jobs(
                jobs,
                profile,
                now,
            )[k]).profile@ == profile && reset_jobs(jobs, profile, now)[k].state
                != CoverJobState::Failed,
        jobs[i].profile@ == profile && jobs[i].state != CoverJobState::Failed ==> reset_jobs(
            jobs,
            profile,
            now,
        ).contains(jobs[i]),
    decreases jobs.len(),
{
    let rest = jobs.drop_last();
    let left = reset_jobs(jobs, profile, now);
    let before = reset_jobs(rest, profile, now);
    if rest.len() > 0 {
        let j = if i < rest.len() {
            i
        } else {
            0
        };
        law_reset_keeps_what_is_good(rest, profile, now, j);
    }
    if jobs[i].profile@ == profile && jobs[i].state != CoverJobState::Failed {
        if i < rest.len() {
            assert(rest[i] == jobs[i]);
            let k = choose|k: int| 0 <= k < before.len() && before[k] == jobs[i];
            assert(left[k] == jobs[i]);
        } else {
            assert(left[before.len() as int] == jobs[i]);
        }
    }
    assert forall|k: int| 0 <= k < left.len() implies (#[trigger] left[k]).profile@ == profile
        && left[k].state != CoverJobState::Failed by {
        if k < before.len() {
            assert(left[k] == before[k]);
        }
    }
}

/// What the stream of changes says: which source, and which asset
/// where it is only one. It carries no state; that is read anew.
#[derive(Debug)]
pub struct CoverRevisionEvent {
    pub source_id: String,
    pub asset_id: Option<String>,
}

// ------------------------------------------------------------------
// What demands for covers promise
// ------------------------------------------------------------------

/// The kinds of entries have names of their own.
pub proof fn law_kinds_have_their_names(kind: CatalogEntryKind)
    ensures
        kind_text(kind) == "ArchiveFile"@ <==> kind == CatalogEntryKind::ArchiveFile,
        kind_text(kind) == "ImageFile"@ <==> kind == CatalogEntryKind::ImageFile,
        kind_text(kind) == "ImageFolder"@ <==> kind == CatalogEntryKind::ImageFolder,
        kind_text(kind) == "ContainerDir"@ <==> kind == CatalogEntryKind::ContainerDir,
        kind_text(kind) == "PlainDir"@ <==> kind == CatalogEntryKind::PlainDir,
        kind_text(kind) == "Other"@ <==> kind == CatalogEntryKind::Other,
{
    reveal_strlit("ArchiveFile");
    reveal_strlit("ImageFile");
    reveal_strlit("ImageFolder");
    reveal_strlit("ContainerDir");
    reveal_strlit("PlainDir");
    reveal_strlit("Other");
    assert("ArchiveFile"@.len() == 11 && "ImageFile"@.len() == 9 && "ImageFolder"@.len() == 11);
    assert("ContainerDir"@.len() == 12 && "PlainDir"@.len() == 8 && "Other"@.len() == 5);
    assert("ArchiveFile"@[0] == 'A' && "ImageFolder"@[0] == 'I');
}

/// The state of a cover is shown as it is stored, each field under its name.
pub proof fn law_cover_states_are_shown_as_stored(state: CatalogCoverState)
    ensures
        ({
            let shown = cover_state_of(state);
            &&& shown.state == state.state && shown.revision == state.revision
            &&& shown.ready == state.ready && shown.error_code == state.error_code
            &&& shown.retry_at == state.retry_at
            &&& shown.is_previous_revision == state.is_previous_revision
        }),
{
}

/// The text of a profile is read back as its width and height.
pub proof fn law_profiles_are_read_back(profile: CoverProfileDto)
    requires
        profile.width > 0,
        profile.height > 0,
    ensures
        profile_size(profile_text(profile)) == (profile.width as nat, profile.height as nat),
{
    reveal_strlit("x");
    reveal_strlit("@");
    assert("x"@ =~= seq!['x']);
    assert("@"@ =~= seq!['@']);
    law_profiles_name_their_size(
        profile.width as nat,
        profile.height as nat,
        decimal(profile.decoder_version as nat),
    );
}

proof fn lemma_line_parts(a: Seq<char>, b: Seq<char>, c: Seq<char>)
    requires
        !a.contains('|'),
        !b.contains('|'),
        !c.contains('|'),
    ensures
        pieces(a + seq!['|'] + b + seq!['|'] + c, '|') == seq![a, b, c],
{
    let rest = b + seq!['|'] + c;
    assert(a + seq!['|'] + b + seq!['|'] + c =~= a + seq!['|'] + rest);
    law_first_piece_ends_at_the_separator(a, rest, '|');
    law_first_piece_ends_at_the_separator(b, c, '|');
    law_first_piece_ends_at_the_separator(c, c, '|');
    assert(pieces(a + seq!['|'] + rest, '|') =~= seq![a, b, c]);
}

/// A selection without a revision of its own names its page: read back it
/// gives the page. One with a revision is known by that.
pub proof fn law_selections_are_read_back(selection: CoverSelectionDto)
    ensures
        is_blank(selection.revision@) && !text_or_empty(selection.crop).contains('|') && !stripped(
            text_or_empty(selection.explicit_asset_id),
        ).contains('|') ==> selected_page(pieces(selection_text(selection), '|'))
            == selection.page,
        !is_blank(selection.revision@) ==> begins(selection_text(selection), selection.revision@),
        !is_blank(selection.revision@) && is_blank(text_or_empty(selection.explicit_asset_id))
            ==> selection_text(selection) == selection.revision@,
{
    let crop = text_or_empty(selection.crop);
    let explicit = stripped(text_or_empty(selection.explicit_asset_id));
    let text = selection_text(selection);
    if !is_blank(selection.revision@) {
        assert(text.subrange(0, selection.revision@.len() as int) =~= selection.revision@);
    } else if !crop.contains('|') && !explicit.contains('|') {
        reveal_strlit("page:");
        reveal_strlit("|crop:");
        reveal_strlit("|asset:");
        reveal_strlit("crop:");
        reveal_strlit("asset:");
        let d = decimal(selection.page as nat);
        let a = "page:"@ + d;
        let b = "crop:"@ + crop;
        let c = "asset:"@ + explicit;
        lemma_decimal_digits(selection.page as nat);
        lemma_holds_no_line("page:"@, d);
        lemma_holds_no_line("crop:"@, crop);
        lemma_holds_no_line("asset:"@, explicit);
        assert("|crop:"@ =~= seq!['|'] + "crop:"@);
        assert("|asset:"@ =~= seq!['|'] + "asset:"@);
        assert(text =~= a + seq!['|'] + b + seq!['|'] + c);
        lemma_line_parts(a, b, c);
        let none = Seq::<Seq<char>>::empty();
        assert(b.subrange(0, 5)[0] == 'c');
        assert(!begins(b, "page:"@));
        assert(c.subrange(0, 5)[0] == 'a');
        assert(!begins(c, "page:"@));
        law_selections_name_their_page(none, selection.page as nat, b);
        law_selections_name_their_page(none.push(a), selection.page as nat, b);
        law_selections_name_their_page(none.push(a).push(b), selection.page as nat, c);
        assert(none.push(a).push(b).push(c) =~= seq![a, b, c]);
    }
}

proof fn lemma_holds_no_line(a: Seq<char>, b: Seq<char>)
    requires
        forall|i: int| 0 <= i < a.len() ==> #[trigger] a[i] != '|',
        all_digits(b) || !b.contains('|'),
    ensures
        !(a + b).contains('|'),
{
    assert forall|i: int| 0 <= i < (a + b).len() implies (a + b)[i] != '|' by {
        if i < a.len() {
            assert((a + b)[i] == a[i]);
        } else {
            let k = i - a.len();
            assert((a + b)[i] == b[k]);
            if all_digits(b) {
                assert(is_digit(b[k]));
            } else {
                assert(b.contains(b[k]));
            }
        }
    }
}

/// The route of a running scan is that of the first of its previews that
/// shows the asset in a session and with the configuration of the source as
/// it is now.
pub proof fn law_first_live_preview_is_the_route(
    facts: CoverRequestFacts,
    asset_id: Seq<char>,
    n: int,
    i: int,
)
    requires
        0 <= n <= facts.previews@.len(),
    ensures
        preview_route(facts, asset_id, n) == Some(i) <==> 0 <= i < n && (
        facts.fingerprint matches Some(f) && facts.previews@[i].source_fingerprint@ == f@)
            && facts.previews@[i].asset_id@ == asset_id && facts.running == Some(
            facts.previews@[i].generation,
        ) && facts.previews@[i].session_epoch@.len() > 0 && forall|j: int|
            0 <= j < i ==> !is_preview_route(
                #[trigger] facts.previews@[j],
                asset_id,
                facts.running,
                opt_text(facts.fingerprint),
            ),
        preview_route(facts, asset_id, n) is None <==> forall|j: int|
            0 <= j < n ==> !is_preview_route(
                #[trigger] facts.previews@[j],
                asset_id,
                facts.running,
                opt_text(facts.fingerprint),
            ),
    decreases n,
{
    if n > 0 {
        law_first_live_preview_is_the_route(facts, asset_id, n - 1, i);
        match preview_route(facts, asset_id, n - 1) {
            Some(k) => {
                law_first_live_preview_is_the_route(facts, asset_id, n - 1, k);
                assert(is_preview_route(
                    facts.previews@[k],
                    asset_id,
                    facts.running,
                    opt_text(facts.fingerprint),
                ));
            },
            None => {},
        }
    }
}

/// A route to an asset is that of the running scan where it has one, and the
/// published one otherwise.
pub proof fn law_running_scans_have_the_route(
    route: RouteRevision,
    facts: CoverRequestFacts,
    asset_id: Seq<char>,
)
    requires
        is_route_to(route, facts, asset_id),
    ensures
        preview_route(facts, asset_id, facts.previews@.len() as int) matches Some(i) ==> {
            let row = facts.previews@[i];
            route.logical_path == row.logical_path && route.generation == row.generation
                && route.session_epoch == row.session_epoch && route.provider_file_id
                == row.provider_file_id && route.source_fingerprint == row.source_fingerprint && (
            facts.source_type matches Some(t) ==> route.provider_id@ == t@) && (
            facts.source_type is None ==> route.provider_id@ == "unknown"@)
        },
        preview_route(facts, asset_id, facts.previews@.len() as int) is None ==> facts.route
            == Some(route),
        has_route(facts, asset_id),
{
}

/// The row of an asset in the index is the first with its id; its latest
/// preview the first of its highest generation.
pub proof fn law_rows_of_an_asset(
    index: Seq<IndexRow>,
    previews: Seq<PreviewRow>,
    id: Seq<char>,
    n: int,
    m: int,
)
    requires
        0 <= n <= index.len(),
        0 <= m <= previews.len(),
    ensures
        index_row(index, id, n) matches Some(i) ==> 0 <= i < n && index[i].id@ == id && forall|
            j: int,
        |
            0 <= j < i ==> (#[trigger] index[j]).id@ != id,
        index_row(index, id, n) is None ==> forall|j: int|
            0 <= j < n ==> (#[trigger] index[j]).id@ != id,
        latest_preview(previews, id, m) matches Some(i) ==> 0 <= i < m && previews[i].asset_id@ == id
            && forall|j: int|
            0 <= j < m && (#[trigger] previews[j]).asset_id@ == id ==> previews[j].generation
                < previews[i].generation || (previews[j].generation == previews[i].generation && i
                <= j),
        latest_preview(previews, id, m) is None ==> forall|j: int|
            0 <= j < m ==> (#[trigger] previews[j]).asset_id@ != id,
    decreases n + m,
{
    if n > 0 {
        law_rows_of_an_asset(index, previews, id, n - 1, m);
    }
    if m > 0 {
        law_rows_of_an_asset(index, previews, id, n, m - 1);
    }
}

/// An asset exists where a row of the index that is not deleted has its id,
/// or a preview of the running scan shows it in a session.
pub proof fn law_assets_exist_in_the_index_or_the_scan(
    facts: CoverRequestFacts,
    asset_id: Seq<char>,
)
    ensures
        is_live(facts, asset_id) <==> (exists|i: int|
            0 <= i < facts.index@.len() && (#[trigger] facts.index@[i]).id@ == asset_id
                && !facts.index@[i].deleted) || (exists|i: int|
            0 <= i < facts.previews@.len() && (#[trigger] facts.previews@[i]).asset_id@ == asset_id
                && facts.running == Some(facts.previews@[i].generation)
                && facts.previews@[i].session_epoch@.len() > 0),
{
    if exists|i: int|
        0 <= i < facts.previews@.len() && (#[trigger] facts.previews@[i]).asset_id@ == asset_id
            && facts.running == Some(facts.previews@[i].generation)
            && facts.previews@[i].session_epoch@.len() > 0 {
        let i = choose|i: int|
            0 <= i < facts.previews@.len() && (#[trigger] facts.previews@[i]).asset_id@ == asset_id
                && facts.running == Some(facts.previews@[i].generation)
                && facts.previews@[i].session_epoch@.len() > 0;
        assert(is_live_preview(facts.previews@[i], asset_id, facts.running));
    }
}

/// A request is refused where the asset no longer exists, where the source
/// was reconfigured since, and where the chosen representative is nowhere;
/// the first of these is the reason, and nothing else is.
pub proof fn law_demands_are_refused_for_a_reason(
    facts: CoverRequestFacts,
    route: RouteRevision,
    asset_id: Seq<char>,
    selection: CoverSelectionDto,
)
    ensures
        ({
            let refused = request_refusal(facts, route, asset_id, selection);
            let live = is_live(facts, asset_id);
            let changed = facts.fingerprint matches Some(f) && f@.len() > 0 && f@
                != route.source_fingerprint@;
            let lost = selection.explicit_asset_id matches Some(id) && !is_blank(id@)
                && representative_parent(facts, id@) is None;
            &&& refused == Some("远程资源已失效"@) <==> !live
            &&& refused == Some("书源配置已变更"@) <==> live && changed
            &&& refused == Some("自定义封面资源已失效"@) <==> live && !changed && lost
            &&& refused is None <==> live && !changed && !lost
        }),
{
    reveal_strlit("远程资源已失效");
    reveal_strlit("书源配置已变更");
    reveal_strlit("自定义封面资源已失效");
    assert("远程资源已失效"@[0] == '远' && "书源配置已变更"@[0] == '书');
    assert("自定义封面资源已失效"@[0] == '自');
}

/// A chosen representative is found in the index, where it is not deleted,
/// else in its latest preview; the directory above it is told by the same.
/// It stands for the asset where that is a directory, else for the directory
/// above itself; what is blank chooses nothing.
pub proof fn law_representatives_stand_for_directories(
    facts: CoverRequestFacts,
    asset_id: Seq<char>,
    selection: CoverSelectionDto,
    id: Seq<char>,
)
    ensures
        ({
            let at = index_row(facts.index@, id, facts.index@.len() as int);
            let shown = latest_preview(facts.previews@, id, facts.previews@.len() as int);
            let found = representative_parent(facts, id);
            &&& at is Some && !facts.index@[at->0].deleted ==> found == Some(
                facts.index@[at->0].parent_id,
            )
            &&& (at is None || facts.index@[at->0].deleted) && shown is Some ==> found == Some(
                facts.previews@[shown->0].parent_asset_id,
            )
            &&& (at is None || facts.index@[at->0].deleted) && shown is None ==> found is None
        }),
        chosen(selection) is Some <==> selection.explicit_asset_id is Some && !is_blank(
            (selection.explicit_asset_id->0)@,
        ),
        chosen(selection) is None ==> represented_directory(facts, asset_id, selection) is None,
        chosen(selection) is Some && is_directory(facts, asset_id) ==> represented_directory(
            facts,
            asset_id,
            selection,
        ) == Some(asset_id),
        chosen(selection) is Some && !is_directory(facts, asset_id) && representative_parent(
            facts,
            (selection.explicit_asset_id->0)@,
        ) is Some ==> represented_directory(facts, asset_id, selection) == opt_text(
            representative_parent(facts, (selection.explicit_asset_id->0)@)->0,
        ),
{
}

/// The contents of an asset are of the revision that the index tells, else of
/// that which its latest preview tells, else of the session in which it was
/// found; what is empty tells nothing.
pub proof fn law_contents_have_a_revision(
    facts: CoverRequestFacts,
    asset_id: Seq<char>,
    epoch: Seq<char>,
)
    ensures
        ({
            let at = index_row(facts.index@, asset_id, facts.index@.len() as int);
            let shown = latest_preview(facts.previews@, asset_id, facts.previews@.len() as int);
            let stored = match at {
                Some(i) => text_or_empty(facts.index@[i].content_fingerprint),
                None => Seq::<char>::empty(),
            };
            let previewed = match shown {
                Some(i) => text_or_empty(facts.previews@[i].content_fingerprint),
                None => Seq::<char>::empty(),
            };
            let revision = content_revision(facts, asset_id, epoch);
            &&& stored.len() > 0 ==> revision == stored
            &&& stored.len() == 0 && previewed.len() > 0 ==> revision == previewed
            &&& stored.len() == 0 && previewed.len() == 0 ==> revision == epoch
        }),
        is_directory(facts, asset_id) <==> (index_row(
            facts.index@,
            asset_id,
            facts.index@.len() as int,
        ) matches Some(i) && facts.index@[i].entry_type@ == "dir"@) || (latest_preview(
            facts.previews@,
            asset_id,
            facts.previews@.len() as int,
        ) matches Some(i) && facts.previews@[i].entry_type@ == "dir"@),
{
}

/// A route is of the session that asks where its generation and epoch were
/// made in it.
pub proof fn law_routes_are_of_their_session(
    epochs: Seq<EpochRow>,
    row: EpochRow,
    generation: i64,
    epoch: Seq<char>,
    session: u64,
)
    ensures
        !session_matches(Seq::<EpochRow>::empty(), generation, epoch, session),
        session_matches(epochs.push(row), generation, epoch, session) <==> session_matches(
            epochs,
            generation,
            epoch,
            session,
        ) || (row.generation == generation && row.session_epoch@ == epoch && row.session_token
            == session),
{
    let more = epochs.push(row);
    if session_matches(epochs, generation, epoch, session) {
        let i = choose|i: int|
            0 <= i < epochs.len() && (#[trigger] epochs[i]).generation == generation
                && epochs[i].session_epoch@ == epoch && epochs[i].session_token == session;
        assert(more[i].generation == generation);
    }
    if row.generation == generation && row.session_epoch@ == epoch && row.session_token == session {
        assert(more[epochs.len() as int].generation == generation);
    }
    if session_matches(more, generation, epoch, session) {
        let i = choose|i: int|
            0 <= i < more.len() && (#[trigger] more[i]).generation == generation
                && more[i].session_epoch@ == epoch && more[i].session_token == session;
        if i < epochs.len() {
            assert(epochs[i].generation == generation);
        }
    }
}

/// A cover is recorded where a stored record has all that identifies it.
pub proof fn law_recorded_covers_are_found(
    records: Seq<CoverRecord>,
    query: CoverRecord,
    record: CoverRecord,
)
    ensures
        !is_recorded(Seq::<CoverRecord>::empty(), query),
        is_recorded(records.push(record), query) <==> is_recorded(records, query) || (
        record.source_id@ == query.source_id@ && record.asset_id@ == query.asset_id@
            && record.selection_revision@ == query.selection_revision@ && record.profile@
            == query.profile@),
{
    let more = records.push(record);
    if is_recorded(records, query) {
        let i = choose|i: int|
            0 <= i < records.len() && is_record_of(
                #[trigger] records[i],
                query.source_id@,
                query.asset_id@,
                query.selection_revision@,
                query.profile@,
            );
        assert(more[i] == records[i]);
    }
    assert(more[records.len() as int] == record);
    if is_recorded(more, query) {
        let i = choose|i: int|
            0 <= i < more.len() && is_record_of(
                #[trigger] more[i],
                query.source_id@,
                query.asset_id@,
                query.selection_revision@,
                query.profile@,
            );
        if i < records.len() {
            assert(records[i] == more[i]);
        }
    }
}

/// The statement that queues covers again sets failed and waiting jobs of the
/// source to pending, without an error, an attempt or a time, and has one
/// mark for each asset that it is limited to.
pub proof fn law_retries_set_failed_jobs_to_pending(n: nat)
    ensures
        RETRY_STATEMENT@ == "UPDATE remote_cover_job SET state='pending',attempt=0,next_attempt_at=NULL, error_code=NULL,updated_at=?1, generation=COALESCE((SELECT route.generation FROM remote_asset_route route WHERE route.source_id=remote_cover_job.source_id AND route.asset_id=remote_cover_job.asset_id),generation), session_epoch=COALESCE((SELECT route.session_epoch FROM remote_asset_route route WHERE route.source_id=remote_cover_job.source_id AND route.asset_id=remote_cover_job.asset_id),session_epoch) WHERE source_id=?2 AND state IN ('retry_wait','failed')"@,
        retry_sql(0) == RETRY_STATEMENT@,
        n > 0 ==> retry_sql(n) == RETRY_STATEMENT@ + " AND asset_id IN ("@ + joined(
            Seq::new(n, |i: int| "?"@),
            ","@,
        ) + ")"@,
{
    lemma_marks_are_joined(n);
}

proof fn lemma_marks_are_joined(n: nat)
    ensures
        marks(n) == joined(Seq::new(n, |i: int| "?"@), ","@),
    decreases n,
{
    reveal_strlit(",?");
    reveal_strlit(",");
    reveal_strlit("?");
    let parts = Seq::new(n, |i: int| "?"@);
    if n == 0 {
        assert(marks(n) =~= joined(parts, ","@));
    } else if n > 1 {
        lemma_marks_are_joined((n - 1) as nat);
        let less = Seq::new((n - 1) as nat, |i: int| "?"@);
        assert(parts.drop_last() =~= less);
        assert(",?"@ =~= ","@ + "?"@);
        let head = joined(less, ","@);
        assert(head + ",?"@ =~= head + ","@ + "?"@);
    }
}

/// A reset starts a failed job over: it is pending as of now, with no
/// attempt, error, wait, lease or long retry. What identifies it stays, and
/// every other job is left as it is.
pub proof fn law_failed_jobs_start_over(job: CoverJobRecord, now: i64)
    ensures
        ({
            let r = restarted(job, now);
            &&& r.job_key == job.job_key && r.source_id == job.source_id && r.profile == job.profile
            &&& job.state != CoverJobState::Failed ==> r == job
            &&& job.state == CoverJobState::Failed ==> r.state == CoverJobState::Pending && r.attempt
                == 0 && r.error_code is None && r.next_attempt_at is None && r.lease_owner is None
                && r.lease_until is None && !r.long_retry_pending && !r.long_retry_consumed
                && r.long_retry_not_before is None && r.updated_at == now
        }),
{
}

/// What a reset leaves are the jobs and the variants of the profile, in their
/// order; it queues each failed job of the profile again.
pub proof fn law_resets_leave_the_profile(
    jobs: Seq<CoverJobRecord>,
    job: CoverJobRecord,
    variants: Seq<CoverVariantRecord>,
    variant: CoverVariantRecord,
    profile: Seq<char>,
    now: i64,
)
    ensures
        reset_jobs(jobs.push(job), profile, now) == (if job.profile@ == profile {
            reset_jobs(jobs, profile, now).push(restarted(job, now))
        } else {
            reset_jobs(jobs, profile, now)
        }),
        failed_jobs(jobs.push(job), profile) == failed_jobs(jobs, profile) + (if job.profile@
            == profile && job.state == CoverJobState::Failed {
            1nat
        } else {
            0nat
        }),
        reset_variants(variants.push(variant), profile) == (if variant.profile@ == profile {
            reset_variants(variants, profile).push(variant)
        } else {
            reset_variants(variants, profile)
        }),
        failed_jobs(Seq::<CoverJobRecord>::empty(), profile) == 0,
{
    assert(jobs.push(job).drop_last() =~= jobs);
    assert(variants.push(variant).drop_last() =~= variants);
}

/// A blob stays where something refers to it, a variant that is left or
/// anything else; of one that goes its file goes too, where it has one.
pub proof fn law_blobs_stay_while_referred_to(
    blobs: Seq<CoverBlobRecord>,
    blob: CoverBlobRecord,
    variants: Seq<CoverVariantRecord>,
    refs: Seq<String>,
)
    ensures
        kept_blobs(blobs.push(blob), variants, refs) == (if is_referred(
            blob.blob_key@,
            variants,
            refs,
        ) {
            kept_blobs(blobs, variants, refs).push(blob)
        } else {
            kept_blobs(blobs, variants, refs)
        }),
        orphan_files(blobs.push(blob), variants, refs) == (if !is_referred(
            blob.blob_key@,
            variants,
            refs,
        ) && blob.relative_path@.len() > 0 {
            orphan_files(blobs, variants, refs).push(blob.relative_path@)
        } else {
            orphan_files(blobs, variants, refs)
        }),
        is_referred(blob.blob_key@, variants, refs) <==> (exists|i: int|
            0 <= i < refs.len() && (#[trigger] refs[i])@ == blob.blob_key@) || (
        blob.blob_key@.len() > 0 && exists|i: int|
            0 <= i < variants.len() && ((#[trigger] variants[i]).blob_key matches Some(key) && key@
                == blob.blob_key@)),
{
    assert(blobs.push(blob).drop_last() =~= blobs);
    if exists|i: int|
        0 <= i < variants.len() && ((#[trigger] variants[i]).blob_key matches Some(key) && key@
            == blob.blob_key@) {
        let i = choose|i: int|
            0 <= i < variants.len() && ((#[trigger] variants[i]).blob_key matches Some(key) && key@
                == blob.blob_key@);
        assert(opt_text(variants[i].blob_key) == Some(blob.blob_key@));
    }
    if exists|i: int| 0 <= i < refs.len() && (#[trigger] refs[i])@ == blob.blob_key@ {
        assert(listed(refs, blob.blob_key@));
    }
}

/// An entry of a directory is shown as it is stored, with the name of its
/// kind and the state of its cover.
pub proof fn law_entries_are_shown_as_stored(dto: RemoteDirectoryEntryDto, entry: CatalogEntry)
    requires
        shows_entry(dto, entry),
    ensures
        dto.asset_id == entry.asset_id && dto.logical_path == entry.logical_path,
        dto.provider_path == entry.provider_path && dto.name == entry.name && dto.size
            == entry.size,
        dto.representative_asset_id == entry.representative_asset_id,
        dto.asset_kind@ == kind_text(entry.kind),
        dto.cover == cover_state_of(entry.cover),
{
}

/// The sources whose covers get a new revision are those of which a job or a
/// variant is left.
pub proof fn law_left_covers_have_their_sources(
    jobs: Seq<CoverJobRecord>,
    variants: Seq<CoverVariantRecord>,
    source_id: Seq<char>,
)
    ensures
        sources_of(jobs, variants).contains(source_id) <==> (exists|i: int|
            0 <= i < jobs.len() && (#[trigger] jobs[i]).source_id@ == source_id) || (exists|i: int|
            0 <= i < variants.len() && (#[trigger] variants[i]).source_id@ == source_id),
{
}

} // verus!
