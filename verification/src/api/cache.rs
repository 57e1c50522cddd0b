//! The sizes of the caches, and the removal of what is cached of books that
//! are gone or have been read.

use vstd::prelude::*;
use vstd::string::*;

use crate::api::library::{book_key, book_key_of, library_path};
use crate::cache::{CacheRoots, CacheSnapshot};
use crate::number::{
    dec_i64, dec_u64, decimal, decimal_int, is_digit, law_signed_decimal_reads_back,
    lemma_decimal_digits, parse_i64, signed_value,
};
use crate::remote_scan::model::{canonical, normalize_path};
use crate::text::{
    add_unique, all_differ, begins, blank, cat2, cat3, cat4, cat5, is_blank,
    law_texts_are_split_at_the_last_separator, law_trimming_finds_the_core, list_has, listed,
    opt_text, or_empty, rsplit_once, same, set_of, split_last, starts_with, stripped,
    text_or_empty, texts, trim, trim_end, trimmed_end, CharClass,
};
use crate::tree::{contents_size, remove_dir_contents};

verus! {

// ------------------------------------------------------------------
// Sizes
// ------------------------------------------------------------------

/// The bytes of each cache and of all.
pub struct CacheSize {
    pub page: u64,
    pub raw: u64,
    pub cover: u64,
    pub ai: u64,
    pub temp: u64,
    pub total: u64,
}

/// The bytes of all caches that are counted: page tables are not.
pub open spec fn counted_size(snapshot: CacheSnapshot) -> nat {
    contents_size(snapshot.page) + contents_size(snapshot.raw) + contents_size(snapshot.cover)
        + contents_size(snapshot.ai) + contents_size(snapshot.temp)
}

/// The bytes of each cache and of all.
pub fn cache_sizes(snapshot: &CacheSnapshot) -> (r: CacheSize)
    requires
        counted_size(*snapshot) <= u64::MAX,
    ensures
        r.page == contents_size(snapshot.page),
        r.raw == contents_size(snapshot.raw),
        r.cover == contents_size(snapshot.cover),
        r.ai == contents_size(snapshot.ai),
        r.temp == contents_size(snapshot.temp),
        r.total == counted_size(*snapshot),
{
    let page: u64 = remove_dir_contents(&snapshot.page).freed;
    let raw: u64 = remove_dir_contents(&snapshot.raw).freed;
    let cover: u64 = remove_dir_contents(&snapshot.cover).freed;
    let ai: u64 = remove_dir_contents(&snapshot.ai).freed;
    let temp: u64 = remove_dir_contents(&snapshot.temp).freed;
    CacheSize { page, raw, cover, ai, temp, total: page + raw + cover + ai + temp }
}

/// The bytes of the page cache.
pub fn page_cache_size(snapshot: &CacheSnapshot) -> (r: u64)
    requires
        contents_size(snapshot.page) <= u64::MAX,
    ensures
        r == contents_size(snapshot.page),
{
    remove_dir_contents(&snapshot.page).freed
}

/// The bytes of all caches that are counted.
pub fn total_cache_size(snapshot: &CacheSnapshot) -> (r: u64)
    requires
        counted_size(*snapshot) <= u64::MAX,
    ensures
        r == counted_size(*snapshot),
{
    cache_sizes(snapshot).total
}

// ------------------------------------------------------------------
// The root of the data
// ------------------------------------------------------------------

/// The names that lead to the root of the data.
pub fn cache_root_path(roots: &CacheRoots, app_data: Option<String>, temp_dir: String) -> (r: Vec<
    String,
>)
    ensures
        texts(r@) == roots.root_parts(app_data, temp_dir),
{
    roots.cache_root(app_data, temp_dir)
}

/// Chooses the root of the data; an empty path goes back to the default.
pub fn set_cache_root_path(roots: &mut CacheRoots, path: &str)
    ensures
        match final(roots).custom {
            Some(chosen) => path@.len() > 0 && chosen@ == path@,
            None => path@.len() == 0,
        },
{
    roots.set_custom_cache_root(path)
}

/// The names that lead to the default root, whatever was chosen.
pub fn default_cache_root_path(app_data: Option<String>, temp_dir: String) -> (r: Vec<String>)
    ensures
        texts(r@) == (match app_data {
            Some(dir) => seq![dir@, "RCH"@],
            None => seq![temp_dir@, "RCH"@],
        }),
{
    CacheRoots::new().cache_root(app_data, temp_dir)
}

// ------------------------------------------------------------------
// The identity of a source in cached names
// ------------------------------------------------------------------

/// The scheme, host and port of an absolute URL, as `reqwest::Url` (the
/// `url` crate) parses it; nothing where it does not parse.
pub uninterp spec fn parsed_url(text: Seq<char>) -> Option<
    (Seq<char>, Option<Seq<char>>, Option<u16>),
>;

/// Calls `reqwest::Url::parse` and reads the scheme, the host and the port
/// that differs from the scheme's default. The result is a function of the
/// text alone; the grammar of URLs is not restated here.
#[verifier::external_body]
fn parse_url(text: &str) -> (r: Option<(String, Option<String>, Option<u16>)>)
    ensures
        match r {
            Some((scheme, host, port)) => parsed_url(text@) == Some(
                (scheme@, opt_text(host), port),
            ),
            None => parsed_url(text@) is None,
        },
{
    match reqwest::Url::parse(text) {
        Ok(url) => {
            let host = url.host_str().map(|h| h.to_string());
            Some((url.scheme().to_string(), host, url.port()))
        },
        Err(_) => None,
    }
}

/// The origin that a parsed URL names: `scheme://host`, with the port where
/// it is not the scheme's default. Without a host there is none.
pub open spec fn origin_text(parts: (Seq<char>, Option<Seq<char>>, Option<u16>)) -> Option<
    Seq<char>,
> {
    match parts.1 {
        Some(host) => match parts.2 {
            Some(port) => Some(parts.0 + "://"@ + host + ":"@ + decimal(port as nat)),
            None => Some(parts.0 + "://"@ + host),
        },
        None => None,
    }
}

/// The origin that a parsed URL names.
pub fn origin_of_parts(scheme: &str, host: Option<String>, port: Option<u16>) -> (r: Option<String>)
    ensures
        opt_text(r) == origin_text((scheme@, opt_text(host), port)),
{
    match host {
        Some(h) => match port {
            Some(p) => {
                let number = dec_u64(p as u64);
                Some(cat5(scheme, "://", h.as_str(), ":", number.as_str()))
            },
            None => Some(cat3(scheme, "://", h.as_str())),
        },
        None => None,
    }
}

/// The origin of a WebDAV address, white space around it ignored.
pub open spec fn webdav_origin_text(url: Seq<char>) -> Option<Seq<char>> {
    match parsed_url(stripped(url)) {
        Some(parts) => origin_text(parts),
        None => None,
    }
}

/// The origin of a WebDAV address.
pub fn webdav_origin(url: &str) -> (r: Option<String>)
    ensures
        opt_text(r) == webdav_origin_text(url@),
{
    let bare = trim(url, CharClass::White);
    match parse_url(bare.as_str()) {
        Some((scheme, host, port)) => origin_of_parts(scheme.as_str(), host, port),
        None => None,
    }
}

/// The host and port of an SFTP address: a positive number behind the last
/// `:` is the port, else the stored port counts.
pub open spec fn sftp_host_port(addr: Seq<char>, port: Option<i64>) -> (Seq<char>, Option<int>) {
    let stored: Option<int> = match port {
        Some(p) => Some(p as int),
        None => None,
    };
    match split_last(addr, ':') {
        Some((host, tail)) => match signed_value(tail) {
            Some(p) => if p > 0 {
                (host, Some(p))
            } else {
                (addr, stored)
            },
            None => (addr, stored),
        },
        None => (addr, stored),
    }
}

/// The endpoint of an SFTP address: the host, and the port where it is not
/// 22; nothing for an empty address.
pub open spec fn sftp_endpoint_text(url: Option<Seq<char>>, port: Option<i64>) -> Option<
    Seq<char>,
> {
    match url {
        Some(text) => {
            let addr = trimmed_end(stripped(text), CharClass::Slash);
            if addr.len() == 0 {
                None
            } else {
                let (host, p) = sftp_host_port(addr, port);
                match p {
                    Some(n) => if n == 22 {
                        Some(host)
                    } else {
                        Some(host + ":"@ + decimal_int(n))
                    },
                    None => Some(host),
                }
            }
        },
        None => None,
    }
}

/// The endpoint of an SFTP address.
pub fn sftp_endpoint(url: &Option<String>, port: Option<i64>) -> (r: Option<String>)
    ensures
        opt_text(r) == sftp_endpoint_text(opt_text(*url), port),
{
    let text = match url {
        Some(t) => t,
        None => return None,
    };
    let bare = trim(text.as_str(), CharClass::White);
    let addr = trim_end(bare.as_str(), CharClass::Slash);
    if addr.as_str().is_empty() {
        return None;
    }
    let mut host = addr.clone();
    let mut chosen: Option<i64> = port;
    match rsplit_once(addr.as_str(), ':') {
        Some((head, tail)) => {
            match parse_i64(tail.as_str()) {
                Some(p) => {
                    if p > 0 {
                        host = head;
                        chosen = Some(p);
                    }
                },
                None => {},
            }
        },
        None => {},
    }
    match chosen {
        Some(p) => if p == 22 {
            Some(host)
        } else {
            let number = dec_i64(p);
            Some(cat3(host.as_str(), ":", number.as_str()))
        },
        None => Some(host),
    }
}

/// What identifies a source in the names of cached files.
pub struct SourceIdentity {
    pub source_type: String,
    pub url: Option<String>,
    pub port: Option<i64>,
    pub root_path: String,
    pub client_id: Option<String>,
    pub root_id: Option<String>,
    pub cookie_mode: bool,
}

/// `text`, or `fallback` where it is blank.
pub open spec fn or_default(text: Seq<char>, fallback: Seq<char>) -> Seq<char> {
    if is_blank(text) {
        fallback
    } else {
        text
    }
}

fn text_or_default(text: &str, fallback: &str) -> (r: String)
    ensures
        r@ == or_default(text@, fallback@),
{
    if blank(text) {
        fallback.to_owned()
    } else {
        text.to_owned()
    }
}

/// The origin of a remote source; none for other kinds, or where the address
/// does not name one.
pub open spec fn origin(s: SourceIdentity) -> Option<Seq<char>> {
    let t = s.source_type@;
    if t == "webdav"@ {
        match s.url {
            Some(url) => webdav_origin_text(url@),
            None => None,
        }
    } else if t == "sftp"@ {
        sftp_endpoint_text(opt_text(s.url), s.port)
    } else if t == "baidu"@ {
        Some("baidu:"@ + text_or_empty(s.client_id) + ":"@ + or_default(s.root_path@, "/"@))
    } else if t == "115"@ {
        let root = or_default(text_or_empty(s.root_id), "0"@);
        if s.cookie_mode {
            Some("115web:"@ + root)
        } else {
            Some("115:"@ + text_or_empty(s.client_id) + ":"@ + root)
        }
    } else if t == "quark"@ {
        Some("quark:"@ + or_default(text_or_empty(s.root_id), "0"@))
    } else {
        None
    }
}

/// The origin of a remote source.
pub fn origin_of(s: &SourceIdentity) -> (r: Option<String>)
    ensures
        opt_text(r) == origin(*s),
{
    let t = s.source_type.as_str();
    if same(t, "webdav") {
        match &s.url {
            Some(url) => webdav_origin(url.as_str()),
            None => None,
        }
    } else if same(t, "sftp") {
        sftp_endpoint(&s.url, s.port)
    } else if same(t, "baidu") {
        let client = or_empty(&s.client_id);
        let root = text_or_default(s.root_path.as_str(), "/");
        Some(cat4("baidu:", client.as_str(), ":", root.as_str()))
    } else if same(t, "115") {
        let id = or_empty(&s.root_id);
        let root = text_or_default(id.as_str(), "0");
        if s.cookie_mode {
            Some(cat2("115web:", root.as_str()))
        } else {
            let client = or_empty(&s.client_id);
            Some(cat4("115:", client.as_str(), ":", root.as_str()))
        }
    } else if same(t, "quark") {
        let id = or_empty(&s.root_id);
        let root = text_or_default(id.as_str(), "0");
        Some(cat2("quark:", root.as_str()))
    } else {
        None
    }
}

/// The namespace of the pages of a book of a remote source.
pub open spec fn remote_namespace(
    source_type: Seq<char>,
    origin: Seq<char>,
    path: Seq<char>,
) -> Seq<char> {
    source_type + "|"@ + origin + "|"@ + path
}

/// The key of the whole download of a book of a remote source.
pub open spec fn raw_key(origin: Seq<char>, path: Seq<char>) -> Seq<char> {
    origin + path
}

// ------------------------------------------------------------------
// Removing what is cached of one book
// ------------------------------------------------------------------

/// What is removed for a book: its pages, its download, its covers.
pub struct BookPurge {
    /// The namespace of the pages that are removed.
    pub page_ns: Option<String>,
    /// The key of the download that is removed.
    pub raw_key: Option<String>,
    /// The path whose covers are removed.
    pub cover_path: Option<String>,
}

/// Whether `p` removes nothing.
pub open spec fn purges_nothing(p: BookPurge) -> bool {
    p.page_ns is None && p.raw_key is None && p.cover_path is None
}

/// Whether `p` removes all that is cached of a book that is gone.
pub open spec fn purges_stale(p: BookPurge, s: SourceIdentity, path: Seq<char>) -> bool {
    if path.len() == 0 {
        purges_nothing(p)
    } else if s.source_type@ == "local"@ {
        &&& opt_text(p.page_ns) == Some("local|"@ + path)
        &&& p.raw_key is None
        &&& opt_text(p.cover_path) == Some(path)
    } else {
        match origin(s) {
            Some(o) => {
                &&& opt_text(p.page_ns) == Some(remote_namespace(s.source_type@, o, path))
                &&& opt_text(p.raw_key) == Some(raw_key(o, path))
                &&& opt_text(p.cover_path) == Some(path)
            },
            None => purges_nothing(p),
        }
    }
}

/// What is removed for a book that is gone. Books of local sources have no
/// download; of other kinds of sources, or of an address that names no
/// origin, nothing is removed.
pub fn purge_stale_book_cache(s: &SourceIdentity, path: &str) -> (r: BookPurge)
    ensures
        purges_stale(r, *s, path@),
{
    if path.is_empty() {
        return BookPurge { page_ns: None, raw_key: None, cover_path: None };
    }
    if same(s.source_type.as_str(), "local") {
        return BookPurge {
            page_ns: Some(cat2("local|", path)),
            raw_key: None,
            cover_path: Some(path.to_owned()),
        };
    }
    match origin_of(s) {
        Some(o) => BookPurge {
            page_ns: Some(cat5(s.source_type.as_str(), "|", o.as_str(), "|", path)),
            raw_key: Some(cat2(o.as_str(), path)),
            cover_path: Some(path.to_owned()),
        },
        None => BookPurge { page_ns: None, raw_key: None, cover_path: None },
    }
}

/// Whether `p` removes the contents of a book that has been read.
pub open spec fn purges_content(
    p: BookPurge,
    s: SourceIdentity,
    path: Seq<char>,
    image_folder: bool,
) -> bool {
    if path.len() == 0 {
        purges_nothing(p)
    } else {
        match origin(s) {
            Some(o) => {
                &&& opt_text(p.page_ns) == Some(remote_namespace(s.source_type@, o, path))
                &&& opt_text(p.raw_key) == (if image_folder {
                    None
                } else {
                    Some(raw_key(o, path))
                })
                &&& p.cover_path is None
            },
            None => purges_nothing(p),
        }
    }
}

/// What is removed when a remote book has been read: its pages, and its
/// download unless it is a folder of images. Covers are never removed.
pub fn purge_remote_book_content_cache(s: &SourceIdentity, path: &str, image_folder: bool) -> (r:
    BookPurge)
    ensures
        purges_content(r, *s, path@, image_folder),
        r.cover_path is None,
{
    if path.is_empty() {
        return BookPurge { page_ns: None, raw_key: None, cover_path: None };
    }
    match origin_of(s) {
        Some(o) => {
            let raw = if image_folder {
                None
            } else {
                Some(cat2(o.as_str(), path))
            };
            BookPurge {
                page_ns: Some(cat5(s.source_type.as_str(), "|", o.as_str(), "|", path)),
                raw_key: raw,
                cover_path: None,
            }
        },
        None => BookPurge { page_ns: None, raw_key: None, cover_path: None },
    }
}

/// What is removed of a book that has been read is also removed of one that
/// is gone: both use the names under which the book was opened.
pub proof fn law_both_purges_agree(
    stale: BookPurge,
    content: BookPurge,
    s: SourceIdentity,
    path: Seq<char>,
)
    requires
        purges_stale(stale, s, path),
        purges_content(content, s, path, false),
        s.source_type@ != "local"@,
    ensures
        opt_text(content.page_ns) == opt_text(stale.page_ns),
        opt_text(content.raw_key) == opt_text(stale.raw_key),
{
}

// ------------------------------------------------------------------
// Removing what is cached of an asset that is proven to be gone
// ------------------------------------------------------------------

/// The proof that an asset is gone: it is missing in a complete listing.
pub struct Tombstone {
    pub logical_path: String,
    pub dependency_paths: Vec<String>,
}

/// A path of the index.
pub struct IndexPath {
    pub path: String,
    pub deleted: bool,
}

/// A path that the cover of a book depends on.
pub struct CoverDependency {
    pub book_key: String,
    pub dependency_path: String,
}

/// What is removed with an asset.
pub struct VerifiedPurge {
    /// The paths whose caches are removed.
    pub paths: Vec<String>,
    /// The dependencies that are removed.
    pub dependencies: Vec<CoverDependency>,
    /// The books whose partial covers are removed.
    pub partials: Vec<String>,
}

/// Whether `path` is `root` or lies below it.
pub open spec fn is_within(path: Seq<char>, root: Seq<char>) -> bool {
    path == root || begins(path, root + "/"@)
}

/// Whether `path` is `root` or lies below it.
pub fn path_is_within(path: &str, root: &str) -> (r: bool)
    ensures
        r == is_within(path@, root@),
{
    if same(path, root) {
        return true;
    }
    let prefix = cat2(root, "/");
    starts_with(path, prefix.as_str())
}

/// Whether a remote source of this kind can be cleaned up by proof.
pub open spec fn can_be_cleaned(source_type: Seq<char>) -> bool {
    source_type == "webdav"@ || source_type == "sftp"@ || source_type == "baidu"@ || source_type
        == "115"@ || source_type == "quark"@
}

/// The first tombstone of the path.
pub open spec fn is_proof(tombstones: Seq<Tombstone>, i: int, path: Seq<char>) -> bool {
    0 <= i < tombstones.len() && tombstones[i].logical_path@ == path && forall|j: int|
        0 <= j < i ==> (#[trigger] tombstones[j]).logical_path@ != path
}

/// What the removal of an asset is decided from.
pub struct PurgeFacts {
    pub source_type: Seq<char>,
    pub source_id: Seq<char>,
    /// The canonical path of the asset.
    pub asset: Seq<char>,
    /// The paths that the proof lists.
    pub proven: Set<Seq<char>>,
    pub index: Seq<IndexPath>,
    pub rows: Seq<CoverDependency>,
}

/// The beginning of the keys of all books of the source.
pub open spec fn source_prefix(f: PurgeFacts) -> Seq<char> {
    f.source_type + "|"@ + f.source_id + "|"@
}

/// The key of the book at a path of the source.
pub open spec fn key_at(f: PurgeFacts, path: Seq<char>) -> Seq<char> {
    book_key(f.source_type, f.source_id, path)
}

/// Whether entry `i` of the index is another, live path of the same book.
pub open spec fn is_live_alias(f: PurgeFacts, i: int) -> bool {
    &&& !f.index[i].deleted
    &&& f.index[i].path@ != f.asset
    &&& key_at(f, f.index[i].path@) == key_at(f, f.asset)
}

/// Whether the book is still there under another path.
pub open spec fn has_live_alias(f: PurgeFacts) -> bool {
    exists|i: int| 0 <= i < f.index.len() && #[trigger] is_live_alias(f, i)
}

/// Whether row `i` is a dependency that goes with the asset: one of a book
/// of this source, on a path that the proof lists or that lies below the
/// asset, while the book is not there under another path.
pub open spec fn row_goes(f: PurgeFacts, i: int) -> bool {
    let path = canonical(f.rows[i].dependency_path@);
    &&& !has_live_alias(f)
    &&& begins(f.rows[i].book_key@, source_prefix(f))
    &&& f.proven.contains(path) || is_within(path, f.asset)
}

/// The books whose covers are affected by the removal.
pub open spec fn affected_books(f: PurgeFacts, n: int) -> Set<Seq<char>> {
    Set::new(
        |key: Seq<char>|
            (!has_live_alias(f) && key == key_at(f, f.asset)) || exists|i: int|
                0 <= i < n && #[trigger] row_goes(f, i) && f.rows[i].book_key@ == key,
    )
}

/// The paths at and below the asset.
pub open spec fn paths_below(f: PurgeFacts, n: int) -> Set<Seq<char>> {
    Set::new(
        |p: Seq<char>|
            exists|i: int|
                0 <= i < n && is_within((#[trigger] f.index[i]).path@, f.asset) && f.index[i].path@
                    == p,
    )
}

/// The paths of the dependencies that go.
pub open spec fn paths_of_rows(f: PurgeFacts, n: int) -> Set<Seq<char>> {
    Set::new(
        |p: Seq<char>|
            exists|i: int|
                0 <= i < n && #[trigger] row_goes(f, i) && canonical(f.rows[i].dependency_path@)
                    == p,
    )
}

/// Whether entry `i` of the index is a live path of an affected book.
pub open spec fn is_affected_path(f: PurgeFacts, i: int) -> bool {
    !f.index[i].deleted && affected_books(f, f.rows.len() as int).contains(
        key_at(f, f.index[i].path@),
    )
}

/// The live paths of affected books.
pub open spec fn paths_of_books(f: PurgeFacts, n: int) -> Set<Seq<char>> {
    Set::new(
        |p: Seq<char>|
            exists|i: int|
                0 <= i < n && #[trigger] is_affected_path(f, i) && f.index[i].path@ == p,
    )
}

/// The paths whose caches are removed with the asset.
pub open spec fn purged_paths(f: PurgeFacts) -> Set<Seq<char>> {
    let own = paths_below(f, f.index.len() as int).insert(f.asset);
    let proven = if has_live_alias(f) {
        Set::<Seq<char>>::empty()
    } else {
        f.proven
    };
    own.union(proven).union(paths_of_rows(f, f.rows.len() as int)).union(
        paths_of_books(f, f.index.len() as int),
    )
}

/// The positions, among the first `n` rows, of the dependencies that go.
pub open spec fn rows_that_go(f: PurgeFacts, n: int) -> Seq<int>
    decreases n,
{
    if n <= 0 {
        Seq::<int>::empty()
    } else if row_goes(f, n - 1) {
        rows_that_go(f, n - 1).push(n - 1)
    } else {
        rows_that_go(f, n - 1)
    }
}

/// The facts that a call is decided from.
pub open spec fn facts_of(
    source: SourceIdentity,
    source_id: Seq<char>,
    logical_path: Seq<char>,
    proof_paths: Seq<String>,
    index: Seq<IndexPath>,
    rows: Seq<CoverDependency>,
) -> PurgeFacts {
    PurgeFacts {
        source_type: source.source_type@,
        source_id,
        asset: canonical(logical_path),
        proven: set_of(proof_paths),
        index,
        rows,
    }
}

fn find_proof(tombstones: &Vec<Tombstone>, path: &str) -> (r: Option<usize>)
    ensures
        match r {
            Some(i) => is_proof(tombstones@, i as int, path@),
            None => forall|i: int| !is_proof(tombstones@, i, path@),
        },
{
    let mut i: usize = 0;
    while i < tombstones.len()
        invariant
            i <= tombstones.len(),
            forall|j: int| 0 <= j < i ==> (#[trigger] tombstones@[j]).logical_path@ != path@,
        decreases tombstones.len() - i,
    {
        if same(tombstones[i].logical_path.as_str(), path) {
            return Some(i);
        }
        i = i + 1;
    }
    None
}

fn live_alias(
    source_type: &str,
    source_id: &str,
    asset: &str,
    index: &Vec<IndexPath>,
    Ghost(f): Ghost<PurgeFacts>,
) -> (r: bool)
    requires
        f.source_type == source_type@,
        f.source_id == source_id@,
        f.asset == asset@,
        f.index == index@,
    ensures
        r == has_live_alias(f),
{
    let own = book_key_of(source_type, source_id, asset);
    let mut i: usize = 0;
    while i < index.len()
        invariant
            i <= index.len(),
            f.source_type == source_type@,
            f.source_id == source_id@,
            f.asset == asset@,
            f.index == index@,
            own@ == key_at(f, f.asset),
            forall|j: int| 0 <= j < i ==> !#[trigger] is_live_alias(f, j),
        decreases index.len() - i,
    {
        if !index[i].deleted && !same(index[i].path.as_str(), asset) {
            let key = book_key_of(source_type, source_id, index[i].path.as_str());
            if same(key.as_str(), own.as_str()) {
                assert(is_live_alias(f, i as int));
                return true;
            }
        }
        i = i + 1;
    }
    false
}

/// What is removed with an asset, or why nothing is: the removal must be
/// proven by a complete listing, and the source must still be there and of a
/// kind that can be cleaned. What the caller believes of dependencies does
/// not count; only the proof does.
pub fn purge_verified_remote_asset(
    source_id: &str,
    logical_path: &str,
    tombstones: &Vec<Tombstone>,
    source: Option<SourceIdentity>,
    index: &Vec<IndexPath>,
    rows: &Vec<CoverDependency>,
) -> (r: Result<VerifiedPurge, String>)
    ensures
        ({
            let asset = canonical(logical_path@);
            match r {
                Err(text) => {
                    ||| (forall|i: int| !is_proof(tombstones@, i, asset)) && text@
                        == "remote deletion is not backed by current complete-listing proof"@
                    ||| (exists|i: int| is_proof(tombstones@, i, asset)) && source is None && text@
                        == "remote source no longer exists"@
                    ||| (exists|i: int| is_proof(tombstones@, i, asset)) && source is Some
                        && !can_be_cleaned((source->0).source_type@) && text@
                        == "verified remote cleanup is unavailable for this source type"@
                },
                Ok(purge) => {
                    &&& source is Some && can_be_cleaned((source->0).source_type@)
                    &&& exists|i: int| #[trigger]
                        is_proof(tombstones@, i, asset) && {
                            let f = facts_of(
                                source->0,
                                source_id@,
                                logical_path@,
                                tombstones@[i].dependency_paths@,
                                index@,
                                rows@,
                            );
                            purges_asset(purge, f)
                        }
                },
            }
        }),
{
    let asset = normalize_path(logical_path);
    let at: usize = match find_proof(tombstones, asset.as_str()) {
        Some(i) => i,
        None => {
            return Err(
                "remote deletion is not backed by current complete-listing proof".to_owned(),
            );
        },
    };
    assert(is_proof(tombstones@, at as int, asset@));
    let source = match source {
        Some(s) => s,
        None => return Err("remote source no longer exists".to_owned()),
    };
    let kind = source.source_type.as_str();
    if !(same(kind, "webdav") || same(kind, "sftp") || same(kind, "baidu") || same(kind, "115")
        || same(kind, "quark")) {
        return Err("verified remote cleanup is unavailable for this source type".to_owned());
    }
    let ghost f = facts_of(
        source,
        source_id@,
        logical_path@,
        tombstones@[at as int].dependency_paths@,
        index@,
        rows@,
    );
    let purge = plan_asset_purge(
        kind,
        source_id,
        asset.as_str(),
        &tombstones[at].dependency_paths,
        index,
        rows,
        Ghost(f),
    );
    Ok(purge)
}

/// Whether `purge` removes exactly what goes with the asset.
pub open spec fn purges_asset(purge: VerifiedPurge, f: PurgeFacts) -> bool {
    let positions = rows_that_go(f, f.rows.len() as int);
    &&& all_differ(purge.paths@)
    &&& set_of(purge.paths@) == purged_paths(f)
    &&& all_differ(purge.partials@)
    &&& set_of(purge.partials@) == affected_books(f, f.rows.len() as int)
    &&& purge.dependencies@.len() == positions.len()
    &&& forall|k: int|
        0 <= k < positions.len() ==> (#[trigger] purge.dependencies@[k]).book_key@
            == f.rows[positions[k]].book_key@ && purge.dependencies@[k].dependency_path@
            == canonical(f.rows[positions[k]].dependency_path@)
}

fn plan_asset_purge(
    kind: &str,
    source_id: &str,
    asset: &str,
    proven: &Vec<String>,
    index: &Vec<IndexPath>,
    rows: &Vec<CoverDependency>,
    Ghost(f): Ghost<PurgeFacts>,
) -> (r: VerifiedPurge)
    requires
        f.source_type == kind@,
        f.source_id == source_id@,
        f.asset == asset@,
        f.proven == set_of(proven@),
        f.index == index@,
        f.rows == rows@,
    ensures
        purges_asset(r, f),
{
    let mut paths: Vec<String> = Vec::new();
    let mut partials: Vec<String> = Vec::new();
    let mut dependencies: Vec<CoverDependency> = Vec::new();
    assert(set_of(paths@) =~= Set::<Seq<char>>::empty());
    assert(set_of(partials@) =~= Set::<Seq<char>>::empty());
    // Paths at and below the asset.
    let mut i: usize = 0;
    assert(paths_below(f, 0) =~= Set::<Seq<char>>::empty());
    while i < index.len()
        invariant
            i <= index.len(),
            f.index == index@,
            f.asset == asset@,
            all_differ(paths@),
            set_of(paths@) == paths_below(f, i as int),
        decreases index.len() - i,
    {
        proof {
            lemma_paths_below_step(f, i as int);
        }
        if path_is_within(index[i].path.as_str(), asset) {
            add_unique(&mut paths, index[i].path.as_str());
        }
        i = i + 1;
    }
    add_unique(&mut paths, asset);
    let ghost own = paths_below(f, f.index.len() as int).insert(f.asset);
    assert(set_of(paths@) == own);
    let alias = live_alias(kind, source_id, asset, index, Ghost(f));
    let ghost listed_paths = if alias {
        Set::<Seq<char>>::empty()
    } else {
        f.proven
    };
    if !alias {
        let mut k: usize = 0;
        assert(set_of(proven@.take(0)) =~= Set::<Seq<char>>::empty());
        assert(own.union(Set::<Seq<char>>::empty()) =~= own);
        while k < proven.len()
            invariant
                k <= proven.len(),
                all_differ(paths@),
                set_of(paths@) == own.union(set_of(proven@.take(k as int))),
            decreases proven.len() - k,
        {
            add_unique(&mut paths, proven[k].as_str());
            proof {
                lemma_set_of_step(proven@, k as int);
                assert(own.union(set_of(proven@.take(k as int))).insert(proven@[k as int]@)
                    =~= own.union(set_of(proven@.take(k + 1))));
            }
            k = k + 1;
        }
        assert(proven@.take(k as int) =~= proven@);
        let key = book_key_of(kind, source_id, asset);
        add_unique(&mut partials, key.as_str());
    } else {
        assert(own.union(Set::<Seq<char>>::empty()) =~= own);
    }
    let ghost base = own.union(listed_paths);
    assert(set_of(paths@) =~= base);
    proof {
        assert(affected_books(f, 0) =~= set_of(partials@));
        assert(paths_of_rows(f, 0) =~= Set::<Seq<char>>::empty());
        assert(base.union(paths_of_rows(f, 0)) =~= base);
    }
    // Dependencies that go.
    let prefix = cat4(kind, "|", source_id, "|");
    let mut j: usize = 0;
    while j < rows.len()
        invariant
            j <= rows.len(),
            f.source_type == kind@,
            f.source_id == source_id@,
            f.asset == asset@,
            f.proven == set_of(proven@),
            f.rows == rows@,
            alias == has_live_alias(f),
            prefix@ == source_prefix(f),
            all_differ(paths@),
            all_differ(partials@),
            set_of(paths@) == base.union(paths_of_rows(f, j as int)),
            set_of(partials@) == affected_books(f, j as int),
            dependencies@.len() == rows_that_go(f, j as int).len(),
            forall|k: int|
                0 <= k < dependencies@.len() ==> (#[trigger] dependencies@[k]).book_key@
                    == f.rows[rows_that_go(f, j as int)[k]].book_key@
                    && dependencies@[k].dependency_path@ == canonical(
                    f.rows[rows_that_go(f, j as int)[k]].dependency_path@,
                ),
        decreases rows.len() - j,
    {
        proof {
            lemma_rows_step(f, j as int);
        }
        let path = normalize_path(rows[j].dependency_path.as_str());
        let hit = !alias && starts_with(rows[j].book_key.as_str(), prefix.as_str()) && (list_has(
            proven,
            path.as_str(),
        ) || path_is_within(path.as_str(), asset));
        assert(hit == row_goes(f, j as int));
        if hit {
            add_unique(&mut partials, rows[j].book_key.as_str());
            add_unique(&mut paths, path.as_str());
            assert(base.union(paths_of_rows(f, j as int)).insert(path@) =~= base.union(
                paths_of_rows(f, j + 1),
            ));
            dependencies.push(
                CoverDependency { book_key: rows[j].book_key.clone(), dependency_path: path },
            );
        }
        j = j + 1;
    }
    // Live paths of affected books.
    let ghost base2 = base.union(paths_of_rows(f, f.rows.len() as int));
    proof {
        assert(paths_of_books(f, 0) =~= Set::<Seq<char>>::empty());
        assert(base2.union(paths_of_books(f, 0)) =~= base2);
    }
    let mut m: usize = 0;
    while m < index.len()
        invariant
            m <= index.len(),
            f.source_type == kind@,
            f.source_id == source_id@,
            f.index == index@,
            all_differ(paths@),
            set_of(partials@) == affected_books(f, f.rows.len() as int),
            set_of(paths@) == base2.union(paths_of_books(f, m as int)),
        decreases index.len() - m,
    {
        proof {
            lemma_books_step(f, m as int);
        }
        if !index[m].deleted {
            let key = book_key_of(kind, source_id, index[m].path.as_str());
            if list_has(&partials, key.as_str()) {
                assert(set_of(partials@).contains(key@));
                assert(is_affected_path(f, m as int));
                add_unique(&mut paths, index[m].path.as_str());
                assert(base2.union(paths_of_books(f, m as int)).insert(index@[m as int].path@)
                    =~= base2.union(paths_of_books(f, m + 1)));
            } else {
                assert(!set_of(partials@).contains(key@));
                assert(!is_affected_path(f, m as int));
            }
        }
        m = m + 1;
    }
    VerifiedPurge { paths, dependencies, partials }
}

proof fn lemma_set_of_step(v: Seq<String>, k: int)
    requires
        0 <= k < v.len(),
    ensures
        set_of(v.take(k + 1)) == set_of(v.take(k)).insert(v[k]@),
{
    let now = set_of(v.take(k + 1));
    let was = set_of(v.take(k)).insert(v[k]@);
    assert forall|x: Seq<char>| #[trigger] now.contains(x) <==> was.contains(x) by {
        if listed(v.take(k), x) {
            let i = choose|i: int| 0 <= i < k && #[trigger] v.take(k)[i]@ == x;
            assert(v.take(k + 1)[i]@ == x);
        }
        if x == v[k]@ {
            assert(v.take(k + 1)[k]@ == x);
        }
        if listed(v.take(k + 1), x) {
            let i = choose|i: int| 0 <= i < k + 1 && #[trigger] v.take(k + 1)[i]@ == x;
            if i < k {
                assert(v.take(k)[i]@ == x);
            }
        }
    }
    assert(now =~= was);
}

proof fn lemma_paths_below_step(f: PurgeFacts, i: int)
    requires
        0 <= i < f.index.len(),
    ensures
        paths_below(f, i + 1) == (if is_within(f.index[i].path@, f.asset) {
            paths_below(f, i).insert(f.index[i].path@)
        } else {
            paths_below(f, i)
        }),
{
    let now = paths_below(f, i + 1);
    let was = paths_below(f, i);
    assert forall|p: Seq<char>| now.contains(p) <==> (was.contains(p) || (is_within(
        f.index[i].path@,
        f.asset,
    ) && f.index[i].path@ == p)) by {
        if now.contains(p) {
            let k = choose|k: int|
                0 <= k < i + 1 && is_within((#[trigger] f.index[k]).path@, f.asset)
                    && f.index[k].path@ == p;
            if k < i {
                assert(was.contains(p));
            }
        }
    }
    if is_within(f.index[i].path@, f.asset) {
        assert(now =~= was.insert(f.index[i].path@));
    } else {
        assert(now =~= was);
    }
}

proof fn lemma_rows_step(f: PurgeFacts, i: int)
    requires
        0 <= i < f.rows.len(),
    ensures
        affected_books(f, i + 1) == (if row_goes(f, i) {
            affected_books(f, i).insert(f.rows[i].book_key@)
        } else {
            affected_books(f, i)
        }),
        paths_of_rows(f, i + 1) == (if row_goes(f, i) {
            paths_of_rows(f, i).insert(canonical(f.rows[i].dependency_path@))
        } else {
            paths_of_rows(f, i)
        }),
{
    let now = affected_books(f, i + 1);
    let was = affected_books(f, i);
    assert forall|key: Seq<char>| now.contains(key) <==> (was.contains(key) || (row_goes(f, i)
        && f.rows[i].book_key@ == key)) by {
        if now.contains(key) && !(!has_live_alias(f) && key == key_at(f, f.asset)) {
            let k = choose|k: int|
                0 <= k < i + 1 && #[trigger] row_goes(f, k) && f.rows[k].book_key@ == key;
            if k < i {
                assert(was.contains(key));
            }
        }
    }
    let now2 = paths_of_rows(f, i + 1);
    let was2 = paths_of_rows(f, i);
    assert forall|p: Seq<char>| now2.contains(p) <==> (was2.contains(p) || (row_goes(f, i)
        && canonical(f.rows[i].dependency_path@) == p)) by {
        if now2.contains(p) {
            let k = choose|k: int|
                0 <= k < i + 1 && #[trigger] row_goes(f, k) && canonical(
                    f.rows[k].dependency_path@,
                ) == p;
            if k < i {
                assert(was2.contains(p));
            }
        }
    }
    if row_goes(f, i) {
        assert(now =~= was.insert(f.rows[i].book_key@));
        assert(now2 =~= was2.insert(canonical(f.rows[i].dependency_path@)));
    } else {
        assert(now =~= was);
        assert(now2 =~= was2);
    }
}

proof fn lemma_books_step(f: PurgeFacts, i: int)
    requires
        0 <= i < f.index.len(),
    ensures
        paths_of_books(f, i + 1) == (if is_affected_path(f, i) {
            paths_of_books(f, i).insert(f.index[i].path@)
        } else {
            paths_of_books(f, i)
        }),
{
    let now = paths_of_books(f, i + 1);
    let was = paths_of_books(f, i);
    assert forall|p: Seq<char>| now.contains(p) <==> (was.contains(p) || (is_affected_path(f, i)
        && f.index[i].path@ == p)) by {
        if now.contains(p) {
            let k = choose|k: int|
                0 <= k < i + 1 && #[trigger] is_affected_path(f, k) && f.index[k].path@ == p;
            if k < i {
                assert(was.contains(p));
            }
        }
    }
    if is_affected_path(f, i) {
        assert(now =~= was.insert(f.index[i].path@));
    } else {
        assert(now =~= was);
    }
}

/// While a book is still there under another path, its dependencies and
/// partial covers stay, and only the caches at and below the removed path
/// go.
pub proof fn law_live_alias_protects_the_book(f: PurgeFacts)
    requires
        has_live_alias(f),
    ensures
        affected_books(f, f.rows.len() as int) == Set::<Seq<char>>::empty(),
        forall|i: int| !row_goes(f, i),
        purged_paths(f) == paths_below(f, f.index.len() as int).insert(f.asset),
{
    assert(affected_books(f, f.rows.len() as int) =~= Set::<Seq<char>>::empty());
    assert(paths_of_rows(f, f.rows.len() as int) =~= Set::<Seq<char>>::empty());
    assert(paths_of_books(f, f.index.len() as int) =~= Set::<Seq<char>>::empty());
    assert(purged_paths(f) =~= paths_below(f, f.index.len() as int).insert(f.asset));
}

/// Dependencies and partial covers of other sources are never touched: every
/// affected key begins with the source's own prefix, letter for letter.
pub proof fn law_purge_stays_within_the_source(f: PurgeFacts, key: Seq<char>)
    requires
        affected_books(f, f.rows.len() as int).contains(key),
    ensures
        begins(key, source_prefix(f)),
{
    if !has_live_alias(f) && key == key_at(f, f.asset) {
        let n = source_prefix(f).len() as int;
        assert(key.subrange(0, n) =~= source_prefix(f));
    }
}

/// The asset itself and all that lies below it in the index is removed.
pub proof fn law_asset_and_contents_are_purged(f: PurgeFacts, i: int)
    requires
        0 <= i < f.index.len(),
        is_within(f.index[i].path@, f.asset),
    ensures
        purged_paths(f).contains(f.asset),
        purged_paths(f).contains(f.index[i].path@),
{
    assert(paths_below(f, f.index.len() as int).contains(f.index[i].path@));
}

// ------------------------------------------------------------------
// What the names of cached files promise
// ------------------------------------------------------------------

/// The caches that are counted are those of pages, downloads, covers,
/// enlarged pages and intermediate files; page tables and what older
/// versions left behind do not count.
pub proof fn law_five_caches_are_counted(snapshot: CacheSnapshot, other: CacheSnapshot)
    requires
        other == (CacheSnapshot {
            mobi_table: other.mobi_table,
            download: other.download,
            cache: other.cache,
            ..snapshot
        }),
    ensures
        counted_size(other) == counted_size(snapshot),
        counted_size(snapshot) == contents_size(snapshot.page) + contents_size(snapshot.raw)
            + contents_size(snapshot.cover) + contents_size(snapshot.ai) + contents_size(
            snapshot.temp,
        ),
{
}

/// An origin is the scheme, the host and, where it is not the usual one, the
/// port; what has no host has none.
pub proof fn law_origins_are_scheme_host_and_port(
    scheme: Seq<char>,
    host: Seq<char>,
    port: u16,
    other: Option<u16>,
)
    ensures
        origin_text((scheme, Some(host), None)) == Some(scheme + "://"@ + host),
        origin_text((scheme, Some(host), Some(port))) == Some(
            scheme + "://"@ + host + ":"@ + decimal(port as nat),
        ),
        origin_text((scheme, None, other)) is None,
{
}

/// The port of an SFTP server is what stands behind the last colon of its
/// address where that is a positive number; else the stored one counts.
pub proof fn law_ports_stand_behind_the_colon(host: Seq<char>, p: int, port: Option<i64>)
    ensures
        0 < p <= i64::MAX ==> sftp_host_port(host + seq![':'] + decimal(p as nat), port) == (
            host,
            Some(p),
        ),
        !host.contains(':') ==> sftp_host_port(host, port) == (
            host,
            match port {
                Some(n) => Some(n as int),
                None => None,
            },
        ),
{
    if 0 < p <= i64::MAX {
        law_signed_decimal_reads_back(p);
        lemma_colon_before_digits(host, p as nat);
        assert(decimal_int(p) == decimal(p as nat));
    }
    law_texts_are_split_at_the_last_separator(host, ':');
}

proof fn lemma_colon_before_digits(host: Seq<char>, p: nat)
    ensures
        split_last(host + seq![':'] + decimal(p), ':') == Some((host, decimal(p))),
{
    let d = decimal(p);
    let s = host + seq![':'] + d;
    lemma_decimal_digits(p);
    assert forall|i: int| 0 <= i < d.len() implies d[i] != ':' by {
        assert(is_digit(d[i]));
    }
    law_texts_are_split_at_the_last_separator(s, ':');
    assert(s[host.len() as int] == ':');
    assert(s.contains(':'));
    let (head, tail) = split_last(s, ':')->0;
    if tail.len() < d.len() {
        assert(s[head.len() as int] == ':');
        assert(s[head.len() as int] == d[head.len() - host.len() - 1]);
    } else if tail.len() > d.len() {
        let i = host.len() - head.len() - 1;
        assert(s[host.len() as int] == tail[i]);
        assert(tail.contains(tail[i]));
    }
    assert(head =~= s.take(head.len() as int));
    assert(host =~= s.take(host.len() as int));
    assert(tail =~= s.skip(head.len() as int + 1));
    assert(d =~= s.skip(host.len() as int + 1));
}

/// The endpoint of an SFTP server is its host, and its port where that is
/// not 22, whether the port stands in the address or is stored.
pub proof fn law_endpoints_of_servers(host: Seq<char>, p: i64)
    requires
        host.len() > 0,
        !host.contains(':'),
        !host.contains('/'),
        !CharClass::White.holds(host[0]),
        !CharClass::White.holds(host.last()),
        p > 0,
    ensures
        sftp_endpoint_text(Some(host), None) == Some(host),
        sftp_endpoint_text(Some(host), Some(22)) == Some(host),
        p != 22 ==> sftp_endpoint_text(Some(host), Some(p)) == Some(
            host + ":"@ + decimal(p as nat),
        ),
        p != 22 ==> sftp_endpoint_text(Some(host + seq![':'] + decimal(p as nat)), None) == Some(
            host + ":"@ + decimal(p as nat),
        ),
        sftp_endpoint_text(Some(host + seq![':'] + decimal(22)), Some(p)) == Some(host),
        sftp_endpoint_text(None, Some(p)) is None,
{
    lemma_bare_address(host);
    law_ports_stand_behind_the_colon(host, p as int, None);
    law_ports_stand_behind_the_colon(host, p as int, Some(22i64));
    law_ports_stand_behind_the_colon(host, p as int, Some(p));
    law_ports_stand_behind_the_colon(host, 22, Some(p));
    lemma_address_with_port(host, p as nat);
    lemma_address_with_port(host, 22);
    assert(decimal_int(p as int) == decimal(p as nat));
}

proof fn lemma_bare_address(host: Seq<char>)
    requires
        host.len() > 0,
        host.last() != '/',
        !CharClass::White.holds(host[0]),
        !CharClass::White.holds(host.last()),
    ensures
        trimmed_end(stripped(host), CharClass::Slash) == host,
{
    let none = Seq::<char>::empty();
    law_trimming_finds_the_core(none, host, none, CharClass::White);
    assert(none + host + none =~= host);
}

proof fn lemma_address_with_port(host: Seq<char>, p: nat)
    requires
        host.len() > 0,
        !CharClass::White.holds(host[0]),
    ensures
        trimmed_end(stripped(host + seq![':'] + decimal(p)), CharClass::Slash) == host + seq![':']
            + decimal(p),
        (host + seq![':'] + decimal(p)).len() > 0,
{
    let d = decimal(p);
    let s = host + seq![':'] + d;
    lemma_decimal_digits(p);
    assert(is_digit(d[d.len() - 1]));
    assert(s.last() == d[d.len() - 1]);
    assert(s[0] == host[0]);
    lemma_bare_address(s);
}

/// What identifies a source in the names of cached files: the origin of a
/// WebDAV address, the endpoint of a server, and for the clouds their kind
/// with the client, where there is one, and the root, `/` for Baidu and `0`
/// for the others where none is stored. Nothing identifies other kinds.
pub proof fn law_sources_have_their_origins(s: SourceIdentity)
    ensures
        ({
            let t = s.source_type@;
            let client = match s.client_id {
                Some(c) => c@,
                None => Seq::<char>::empty(),
            };
            let root = match s.root_id {
                Some(r) => if is_blank(r@) {
                    "0"@
                } else {
                    r@
                },
                None => "0"@,
            };
            let path = if is_blank(s.root_path@) {
                "/"@
            } else {
                s.root_path@
            };
            &&& t == "webdav"@ && s.url is Some ==> origin(s) == webdav_origin_text((s.url->0)@)
            &&& t == "webdav"@ && s.url is None ==> origin(s) is None
            &&& t == "sftp"@ ==> origin(s) == sftp_endpoint_text(opt_text(s.url), s.port)
            &&& t == "baidu"@ ==> origin(s) == Some("baidu:"@ + client + ":"@ + path)
            &&& t == "115"@ && s.cookie_mode ==> origin(s) == Some("115web:"@ + root)
            &&& t == "115"@ && !s.cookie_mode ==> origin(s) == Some(
                "115:"@ + client + ":"@ + root,
            )
            &&& t == "quark"@ ==> origin(s) == Some("quark:"@ + root)
            &&& origin(s) is Some ==> t == "webdav"@ || t == "sftp"@ || t == "baidu"@ || t
                == "115"@ || t == "quark"@
        }),
{
    lemma_source_types_differ();
    lemma_nothing_is_blank();
}

proof fn lemma_nothing_is_blank()
    ensures
        is_blank(Seq::<char>::empty()),
{
}

proof fn lemma_source_types_differ()
    ensures
        "webdav"@ != "sftp"@,
        "webdav"@ != "baidu"@,
        "webdav"@ != "115"@,
        "webdav"@ != "quark"@,
        "sftp"@ != "baidu"@,
        "sftp"@ != "115"@,
        "sftp"@ != "quark"@,
        "baidu"@ != "115"@,
        "baidu"@ != "quark"@,
        "115"@ != "quark"@,
        "local"@ != "webdav"@,
        "local"@ != "sftp"@,
        "local"@ != "baidu"@,
        "local"@ != "115"@,
        "local"@ != "quark"@,
{
    reveal_strlit("webdav");
    reveal_strlit("sftp");
    reveal_strlit("baidu");
    reveal_strlit("115");
    reveal_strlit("quark");
    reveal_strlit("local");
    assert("webdav"@.len() == 6 && "sftp"@.len() == 4 && "baidu"@.len() == 5);
    assert("115"@.len() == 3 && "quark"@.len() == 5 && "local"@.len() == 5);
    assert("baidu"@[0] == 'b' && "quark"@[0] == 'q' && "local"@[0] == 'l');
}

/// What is removed of a book that is gone: of a local one its pages and its
/// covers; of a remote one also its download; of a source that nothing
/// identifies, and of an empty path, nothing.
pub proof fn law_gone_books_leave_nothing(p: BookPurge, s: SourceIdentity, path: Seq<char>)
    requires
        purges_stale(p, s, path),
    ensures
        path.len() > 0 && s.source_type@ == "local"@ ==> opt_text(p.page_ns) == Some(
            "local|"@ + path,
        ) && p.raw_key is None && opt_text(p.cover_path) == Some(path),
        path.len() > 0 && s.source_type@ != "local"@ && origin(s) is Some ==> opt_text(p.page_ns)
            == Some(s.source_type@ + "|"@ + origin(s)->0 + "|"@ + path) && opt_text(p.raw_key)
            == Some(origin(s)->0 + path) && opt_text(p.cover_path) == Some(path),
        path.len() == 0 || (s.source_type@ != "local"@ && origin(s) is None) ==> p.page_ns is None
            && p.raw_key is None && p.cover_path is None,
{
}

/// What is removed of a remote book that has been read: its pages, and its
/// download where it is no folder of images. Its covers stay, and nothing of
/// a source that nothing identifies is removed.
pub proof fn law_read_books_keep_their_covers(
    p: BookPurge,
    s: SourceIdentity,
    path: Seq<char>,
    image_folder: bool,
)
    requires
        purges_content(p, s, path, image_folder),
    ensures
        p.cover_path is None,
        path.len() > 0 && origin(s) is Some ==> opt_text(p.page_ns) == Some(
            s.source_type@ + "|"@ + origin(s)->0 + "|"@ + path,
        ),
        path.len() > 0 && origin(s) is Some && !image_folder ==> opt_text(p.raw_key) == Some(
            origin(s)->0 + path,
        ),
        image_folder || path.len() == 0 || origin(s) is None ==> p.raw_key is None,
        path.len() == 0 || origin(s) is None ==> p.page_ns is None,
{
}

/// A path lies within another where it is that path, or goes on behind it
/// with a separator; a longer name beside it does not.
pub proof fn law_paths_below_a_path(root: Seq<char>, rest: Seq<char>, c: char)
    ensures
        is_within(root, root),
        is_within(root + "/"@ + rest, root),
        c != '/' ==> !is_within(root + seq![c] + rest, root),
{
    reveal_strlit("/");
    let below = root + "/"@ + rest;
    let r = root + "/"@;
    assert(below.subrange(0, r.len() as int) =~= r);
    let beside = root + seq![c] + rest;
    if c != '/' {
        assert(beside.len() > root.len());
        if begins(beside, r) {
            assert(beside.subrange(0, r.len() as int)[root.len() as int] == '/');
            assert(beside[root.len() as int] == c);
        }
    }
}

/// Sources that are directories are never cleaned up by proof; the five
/// remote kinds are.
pub proof fn law_remote_kinds_can_be_cleaned(kind: Seq<char>)
    ensures
        can_be_cleaned(kind) <==> kind == "webdav"@ || kind == "sftp"@ || kind == "baidu"@ || kind
            == "115"@ || kind == "quark"@,
        !can_be_cleaned("local"@),
{
    lemma_source_types_differ();
}

/// With an asset go its own path, what the index holds below it, and, unless
/// the book is there under another path, what the proof lists, the
/// dependencies of books of its source that the proof lists or that lie below
/// it, and the live paths of the books affected. Nothing else goes.
pub proof fn law_asset_takes_its_paths_along(f: PurgeFacts, p: Seq<char>)
    ensures
        purged_paths(f).contains(p) <==> p == f.asset || (exists|i: int|
            0 <= i < f.index.len() && (#[trigger] f.index[i]).path@ == p && is_within(p, f.asset))
            || (!has_live_alias(f) && f.proven.contains(p)) || (exists|i: int|
            0 <= i < f.rows.len() && #[trigger] row_goes(f, i) && canonical(
                f.rows[i].dependency_path@,
            ) == p) || (exists|i: int|
            0 <= i < f.index.len() && #[trigger] is_affected_path(f, i) && f.index[i].path@ == p),
        forall|i: int|
            0 <= i < f.rows.len() && #[trigger] row_goes(f, i) ==> !has_live_alias(f) && begins(
                f.rows[i].book_key@,
                f.source_type + "|"@ + f.source_id + "|"@,
            ) && (f.proven.contains(canonical(f.rows[i].dependency_path@)) || is_within(
                canonical(f.rows[i].dependency_path@),
                f.asset,
            )),
{
    let own = paths_below(f, f.index.len() as int);
    if own.contains(p) {
        let i = choose|i: int|
            0 <= i < f.index.len() && is_within((#[trigger] f.index[i]).path@, f.asset)
                && f.index[i].path@ == p;
        assert(f.index[i].path@ == p);
    }
    if exists|i: int|
        0 <= i < f.index.len() && (#[trigger] f.index[i]).path@ == p && is_within(p, f.asset) {
        let i = choose|i: int|
            0 <= i < f.index.len() && (#[trigger] f.index[i]).path@ == p && is_within(p, f.asset);
        assert(is_within(f.index[i].path@, f.asset));
        assert(own.contains(p));
    }
}

/// The key of a book at a path of the source is made of the type, the id and
/// the path under which the book is known. It is there under another path
/// where the index has such a path that is not deleted.
pub proof fn law_books_are_there_under_other_paths(f: PurgeFacts, path: Seq<char>)
    ensures
        key_at(f, path) == f.source_type + "|"@ + f.source_id + "|"@ + library_path(path),
        has_live_alias(f) <==> exists|i: int|
            0 <= i < f.index.len() && !(#[trigger] f.index[i]).deleted && f.index[i].path@
                != f.asset && library_path(f.index[i].path@) == library_path(f.asset),
{
    let prefix = f.source_type + "|"@ + f.source_id + "|"@;
    if has_live_alias(f) {
        let i = choose|i: int| 0 <= i < f.index.len() && #[trigger] is_live_alias(f, i);
        let a = library_path(f.index[i].path@);
        let b = library_path(f.asset);
        assert((prefix + a).skip(prefix.len() as int) =~= a);
        assert((prefix + b).skip(prefix.len() as int) =~= b);
        assert(!f.index[i].deleted);
    }
    if exists|i: int|
        0 <= i < f.index.len() && !(#[trigger] f.index[i]).deleted && f.index[i].path@ != f.asset
            && library_path(f.index[i].path@) == library_path(f.asset) {
        let i = choose|i: int|
            0 <= i < f.index.len() && !(#[trigger] f.index[i]).deleted && f.index[i].path@
                != f.asset && library_path(f.index[i].path@) == library_path(f.asset);
        assert(is_live_alias(f, i));
    }
}

/// The books that a removal affects are that of the asset and those of the
/// dependencies that go, unless the book is there under another path; their
/// live paths are affected with them.
pub proof fn law_affected_books_are_those_of_the_asset(f: PurgeFacts, key: Seq<char>, i: int)
    ensures
        affected_books(f, f.rows.len() as int).contains(key) <==> !has_live_alias(f) && (key
            == key_at(f, f.asset) || exists|k: int|
            0 <= k < f.rows.len() && #[trigger] row_goes(f, k) && f.rows[k].book_key@ == key),
        0 <= i < f.index.len() ==> (is_affected_path(f, i) <==> !f.index[i].deleted
            && affected_books(f, f.rows.len() as int).contains(key_at(f, f.index[i].path@))),
        0 <= i < f.rows.len() ==> (row_goes(f, i) <==> !has_live_alias(f) && begins(
            f.rows[i].book_key@,
            f.source_type + "|"@ + f.source_id + "|"@,
        ) && (f.proven.contains(canonical(f.rows[i].dependency_path@)) || is_within(
            canonical(f.rows[i].dependency_path@),
            f.asset,
        ))),
{
}

/// What a removal lists is what goes: each path and each book once, and the
/// dependencies that go, in the order of their rows.
pub proof fn law_removals_list_what_goes(purge: VerifiedPurge, f: PurgeFacts, p: Seq<char>, n: int)
    requires
        purges_asset(purge, f),
        0 <= n <= f.rows.len(),
    ensures
        listed(purge.paths@, p) <==> purged_paths(f).contains(p),
        listed(purge.partials@, p) <==> affected_books(f, f.rows.len() as int).contains(p),
        all_differ(purge.paths@),
        all_differ(purge.partials@),
        purge.dependencies@.len() == rows_that_go(f, f.rows.len() as int).len(),
        forall|k: int|
            0 <= k < purge.dependencies@.len() ==> (#[trigger] purge.dependencies@[k]).book_key@
                == f.rows[rows_that_go(f, f.rows.len() as int)[k]].book_key@,
        n > 0 ==> rows_that_go(f, n) == (if row_goes(f, n - 1) {
            rows_that_go(f, n - 1).push(n - 1)
        } else {
            rows_that_go(f, n - 1)
        }),
        rows_that_go(f, 0).len() == 0,
{
    assert(set_of(purge.paths@).contains(p) <==> listed(purge.paths@, p));
    assert(set_of(purge.partials@).contains(p) <==> listed(purge.partials@, p));
}

/// The proof that an asset is gone is the first tombstone of its path.
pub proof fn law_first_tombstone_is_the_proof(
    tombstones: Seq<Tombstone>,
    i: int,
    path: Seq<char>,
    source: SourceIdentity,
    source_id: Seq<char>,
    logical_path: Seq<char>,
    proof_paths: Seq<String>,
    index: Seq<IndexPath>,
    rows: Seq<CoverDependency>,
)
    ensures
        is_proof(tombstones, i, path) <==> 0 <= i < tombstones.len() && tombstones[i].logical_path@
            == path && forall|j: int|
            0 <= j < i ==> (#[trigger] tombstones[j]).logical_path@ != path,
        ({
            let f = facts_of(source, source_id, logical_path, proof_paths, index, rows);
            &&& f.source_type == source.source_type@ && f.source_id == source_id
            &&& f.asset == canonical(logical_path) && f.proven == set_of(proof_paths)
            &&& f.index == index && f.rows == rows
        }),
{
}

/// The names of cached files are made of the type, the origin and the path;
/// those of downloads of the origin and the path.
pub proof fn law_cached_files_are_named_by_their_source(
    kind: Seq<char>,
    o: Seq<char>,
    path: Seq<char>,
    text: Seq<char>,
    fallback: Seq<char>,
)
    ensures
        remote_namespace(kind, o, path) == kind + "|"@ + o + "|"@ + path,
        raw_key(o, path) == o + path,
        is_blank(text) ==> or_default(text, fallback) == fallback,
        !is_blank(text) ==> or_default(text, fallback) == text,
{
}

} // verus!
