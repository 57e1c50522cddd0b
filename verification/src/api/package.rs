//! Packages that carry a library from one device to another.

use vstd::prelude::*;
use vstd::string::*;

use crate::text::{or_empty, text_or_empty, texts};

verus! {

/// What an export has written.
pub struct ExportInfo {
    pub device_id: String,
    pub created_at: i64,
    pub since: i64,
    pub tags: usize,
    pub book_tags: usize,
    pub metas: usize,
    pub records: usize,
    pub sources: usize,
    pub settings: usize,
    pub tombstones: usize,
}

/// What is shown of an export.
pub struct SyncExportInfo {
    pub device_id: String,
    pub created_at: i64,
    pub since: i64,
    pub tags: i64,
    pub book_tags: i64,
    pub metas: i64,
    pub records: i64,
    pub sources: i64,
    pub settings: i64,
    pub tombstones: i64,
}

/// Whether every count has a place in what is shown.
pub open spec fn export_fits(info: ExportInfo) -> bool {
    &&& info.tags <= i64::MAX
    &&& info.book_tags <= i64::MAX
    &&& info.metas <= i64::MAX
    &&& info.records <= i64::MAX
    &&& info.sources <= i64::MAX
    &&& info.settings <= i64::MAX
    &&& info.tombstones <= i64::MAX
}

/// Whether `dto` shows the counts of `info`.
pub open spec fn export_shown(dto: SyncExportInfo, info: ExportInfo) -> bool {
    &&& dto.device_id == info.device_id
    &&& dto.created_at == info.created_at
    &&& dto.since == info.since
    &&& dto.tags == info.tags
    &&& dto.book_tags == info.book_tags
    &&& dto.metas == info.metas
    &&& dto.records == info.records
    &&& dto.sources == info.sources
    &&& dto.settings == info.settings
    &&& dto.tombstones == info.tombstones
}

/// What is shown of an export.
pub fn rchpkg_export(info: &ExportInfo) -> (r: SyncExportInfo)
    requires
        export_fits(*info),
    ensures
        export_shown(r, *info),
{
    SyncExportInfo {
        device_id: info.device_id.clone(),
        created_at: info.created_at,
        since: info.since,
        tags: info.tags as i64,
        book_tags: info.book_tags as i64,
        metas: info.metas as i64,
        records: info.records as i64,
        sources: info.sources as i64,
        settings: info.settings as i64,
        tombstones: info.tombstones as i64,
    }
}

/// What is shown of an export with credentials.
pub fn rchpkg_export_with_credentials(info: &ExportInfo) -> (r: SyncExportInfo)
    requires
        export_fits(*info),
    ensures
        export_shown(r, *info),
{
    rchpkg_export(info)
}

/// What an import has taken in.
pub struct ImportInfo {
    pub schema_version: i64,
    pub tags: usize,
    pub book_tags: usize,
    pub metas: usize,
    pub records: usize,
    pub sources: usize,
    pub settings: usize,
    pub tombstones: usize,
    pub ghosts: usize,
    pub skipped: usize,
}

/// What is shown of an import.
pub struct SyncImportStats {
    pub schema_version: i64,
    pub tags: i64,
    pub book_tags: i64,
    pub metas: i64,
    pub records: i64,
    pub sources: i64,
    pub settings: i64,
    pub tombstones: i64,
    pub ghosts: i64,
    pub skipped: i64,
}

/// Whether every count has a place in what is shown.
pub open spec fn import_fits(info: ImportInfo) -> bool {
    &&& info.tags <= i64::MAX
    &&& info.book_tags <= i64::MAX
    &&& info.metas <= i64::MAX
    &&& info.records <= i64::MAX
    &&& info.sources <= i64::MAX
    &&& info.settings <= i64::MAX
    &&& info.tombstones <= i64::MAX
    &&& info.ghosts <= i64::MAX
    &&& info.skipped <= i64::MAX
}

/// Whether `dto` shows the counts of `info`.
pub open spec fn import_shown(dto: SyncImportStats, info: ImportInfo) -> bool {
    &&& dto.schema_version == info.schema_version
    &&& dto.tags == info.tags
    &&& dto.book_tags == info.book_tags
    &&& dto.metas == info.metas
    &&& dto.records == info.records
    &&& dto.sources == info.sources
    &&& dto.settings == info.settings
    &&& dto.tombstones == info.tombstones
    &&& dto.ghosts == info.ghosts
    &&& dto.skipped == info.skipped
}

/// What is shown of an import.
pub fn rchpkg_import(info: &ImportInfo) -> (r: SyncImportStats)
    requires
        import_fits(*info),
    ensures
        import_shown(r, *info),
{
    SyncImportStats {
        schema_version: info.schema_version,
        tags: info.tags as i64,
        book_tags: info.book_tags as i64,
        metas: info.metas as i64,
        records: info.records as i64,
        sources: info.sources as i64,
        settings: info.settings as i64,
        tombstones: info.tombstones as i64,
        ghosts: info.ghosts as i64,
        skipped: info.skipped as i64,
    }
}

/// What is shown of an import with credentials.
pub fn rchpkg_import_with_credentials(info: &ImportInfo) -> (r: SyncImportStats)
    requires
        import_fits(*info),
    ensures
        import_shown(r, *info),
{
    rchpkg_import(info)
}

/// The directory that packages are exchanged in: `RCH/sync` below a root,
/// as the parts of its path.
pub fn rchpkg_default_sync_dir(root: String) -> (r: Vec<String>)
    ensures
        texts(r@) == seq![root@, "RCH"@, "sync"@],
{
    let ghost first = root@;
    let r = vec![root, "RCH".to_owned(), "sync".to_owned()];
    assert(texts(r@) =~= seq![first, "RCH"@, "sync"@]);
    r
}

/// The credentials of a source as a package holds them.
pub struct SourceCredentialEntry {
    pub id: Option<String>,
    pub fingerprint: String,
    pub source_type: String,
    pub name: Option<String>,
    pub path: Option<String>,
    pub root_id: Option<String>,
    pub password: Option<String>,
    pub refresh_token: Option<String>,
    pub client_secret: Option<String>,
    pub cookie: Option<String>,
}

/// The credentials of a source as they are shown.
pub struct SourceBundleDto {
    pub id: String,
    pub source_type: String,
    pub name: String,
    pub path: String,
    pub root_id: Option<String>,
    pub password: Option<String>,
    pub refresh_token: Option<String>,
    pub client_secret: Option<String>,
    pub cookie: Option<String>,
}

/// Whether the credentials themselves are the same.
pub open spec fn same_secrets(dto: SourceBundleDto, entry: SourceCredentialEntry) -> bool {
    &&& dto.source_type == entry.source_type && dto.root_id == entry.root_id
    &&& dto.password == entry.password && dto.refresh_token == entry.refresh_token
    &&& dto.client_secret == entry.client_secret && dto.cookie == entry.cookie
}

/// Whether `dto` shows an entry; what it does not name is shown empty.
pub open spec fn shows_credentials(dto: SourceBundleDto, entry: SourceCredentialEntry) -> bool {
    &&& same_secrets(dto, entry)
    &&& dto.id@ == text_or_empty(entry.id)
    &&& dto.name@ == text_or_empty(entry.name)
    &&& dto.path@ == text_or_empty(entry.path)
}

/// Whether `entry` holds what is shown. It is found again by its id; it has
/// no fingerprint.
pub open spec fn holds_credentials(entry: SourceCredentialEntry, dto: SourceBundleDto) -> bool {
    &&& same_secrets(dto, entry)
    &&& entry.id == Some(dto.id)
    &&& entry.name == Some(dto.name)
    &&& entry.path == Some(dto.path)
    &&& entry.fingerprint@.len() == 0
}

fn credentials_dto(entry: &SourceCredentialEntry) -> (r: SourceBundleDto)
    ensures
        shows_credentials(r, *entry),
{
    SourceBundleDto {
        id: or_empty(&entry.id),
        source_type: entry.source_type.clone(),
        name: or_empty(&entry.name),
        path: or_empty(&entry.path),
        root_id: entry.root_id.clone(),
        password: entry.password.clone(),
        refresh_token: entry.refresh_token.clone(),
        client_secret: entry.client_secret.clone(),
        cookie: entry.cookie.clone(),
    }
}

fn credentials_entry(dto: &SourceBundleDto) -> (r: SourceCredentialEntry)
    ensures
        holds_credentials(r, *dto),
{
    SourceCredentialEntry {
        id: Some(dto.id.clone()),
        fingerprint: String::new(),
        source_type: dto.source_type.clone(),
        name: Some(dto.name.clone()),
        path: Some(dto.path.clone()),
        root_id: dto.root_id.clone(),
        password: dto.password.clone(),
        refresh_token: dto.refresh_token.clone(),
        client_secret: dto.client_secret.clone(),
        cookie: dto.cookie.clone(),
    }
}

/// The entries that are encrypted for what is shown, in order.
pub fn source_bundle_encrypt(sources: &Vec<SourceBundleDto>) -> (r: Vec<SourceCredentialEntry>)
    ensures
        r.len() == sources.len(),
        forall|i: int| 0 <= i < sources.len() ==> holds_credentials(#[trigger] r@[i], sources@[i]),
{
    let mut out: Vec<SourceCredentialEntry> = Vec::new();
    let mut i: usize = 0;
    while i < sources.len()
        invariant
            i <= sources.len(),
            out.len() == i,
            forall|j: int| 0 <= j < i ==> holds_credentials(#[trigger] out@[j], sources@[j]),
        decreases sources.len() - i,
    {
        out.push(credentials_entry(&sources[i]));
        i = i + 1;
    }
    out
}

/// What is shown of entries that were decrypted, in order.
pub fn source_bundle_decrypt(entries: &Vec<SourceCredentialEntry>) -> (r: Vec<SourceBundleDto>)
    ensures
        r.len() == entries.len(),
        forall|i: int| 0 <= i < entries.len() ==> shows_credentials(#[trigger] r@[i], entries@[i]),
{
    let mut out: Vec<SourceBundleDto> = Vec::new();
    let mut i: usize = 0;
    while i < entries.len()
        invariant
            i <= entries.len(),
            out.len() == i,
            forall|j: int| 0 <= j < i ==> shows_credentials(#[trigger] out@[j], entries@[j]),
        decreases entries.len() - i,
    {
        out.push(credentials_dto(&entries[i]));
        i = i + 1;
    }
    out
}

/// Credentials come out of a package as they were put in.
pub proof fn law_credentials_round_trip(
    before: SourceBundleDto,
    entry: SourceCredentialEntry,
    after: SourceBundleDto,
)
    requires
        holds_credentials(entry, before),
        shows_credentials(after, entry),
    ensures
        after.id@ == before.id@,
        after.name@ == before.name@,
        after.path@ == before.path@,
        after.source_type == before.source_type,
        after.root_id == before.root_id,
        after.password == before.password,
        after.refresh_token == before.refresh_token,
        after.client_secret == before.client_secret,
        after.cookie == before.cookie,
{
}

/// What is shown of an export and of an import are its own numbers, each
/// under its name.
pub proof fn law_packages_show_their_own_numbers(
    exported: SyncExportInfo,
    export: ExportInfo,
    imported: SyncImportStats,
    import: ImportInfo,
)
    requires
        export_shown(exported, export),
        import_shown(imported, import),
    ensures
        exported.device_id == export.device_id && exported.created_at == export.created_at
            && exported.since == export.since,
        exported.tags == export.tags && exported.book_tags == export.book_tags && exported.metas
            == export.metas && exported.records == export.records && exported.sources
            == export.sources && exported.settings == export.settings && exported.tombstones
            == export.tombstones,
        imported.schema_version == import.schema_version && imported.ghosts == import.ghosts
            && imported.skipped == import.skipped,
        imported.tags == import.tags && imported.book_tags == import.book_tags && imported.metas
            == import.metas && imported.records == import.records && imported.sources
            == import.sources && imported.settings == import.settings && imported.tombstones
            == import.tombstones,
{
}

} // verus!
