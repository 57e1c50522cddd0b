//! How remote books are opened, and how their covers are made.
//!
//! The work itself is done by clients of providers; what is decided here is
//! which step comes next.

use vstd::prelude::*;
use vstd::string::*;

use crate::api::book::PageImage;
use crate::api::cache::{
    law_endpoints_of_servers, law_sources_have_their_origins, or_default, origin, remote_namespace,
    webdav_origin, webdav_origin_text, SourceIdentity,
};
use crate::api::source::{find_session, is_session, provider_of, Provider, RemoteSession};
use crate::cache::{cover_cache_key, cover_name, decode_cover, read_payload};
use crate::number::{dec_u64, decimal, lemma_decimal_injective};
use crate::session::Sessions;
use crate::text::{blank, cat2, cat3, cat4, cat5, opt_text, same, CharClass};

verus! {

// ------------------------------------------------------------------
// Opening a book
// ------------------------------------------------------------------

/// How a book is to be opened.
#[derive(Clone, Copy, PartialEq, Eq, Structural, Debug)]
pub enum OpenStrategy {
    /// As is best for the provider.
    Auto,
    /// As a whole, or not at all.
    Download,
    /// In parts.
    Stream,
}

/// The strategy that a setting names.
pub open spec fn strategy_named(s: Seq<char>) -> OpenStrategy {
    if s == "download"@ {
        OpenStrategy::Download
    } else if s == "stream"@ {
        OpenStrategy::Stream
    } else {
        OpenStrategy::Auto
    }
}

/// The strategy that a setting names.
pub fn parse_strategy(s: &str) -> (r: OpenStrategy)
    ensures
        r == strategy_named(s@),
{
    if same(s, "download") {
        OpenStrategy::Download
    } else if same(s, "stream") {
        OpenStrategy::Stream
    } else {
        OpenStrategy::Auto
    }
}

/// A step of opening a book.
#[derive(Clone, Copy, PartialEq, Eq, Structural, Debug)]
pub enum OpenAction {
    /// See whether the whole download is there.
    ProbeCache,
    /// Open the download that was there.
    OpenCached,
    /// See whether parts of the file can be read.
    ProbeRange,
    /// Open the file in parts.
    OpenStream,
    /// Read the whole file into memory and open it.
    ReadWhole,
    /// Download the file without showing progress.
    Fetch,
    /// Open what was fetched.
    OpenFetched,
    /// Download the file.
    Download,
    /// Open what was downloaded.
    OpenDownloaded,
    /// The book is open.
    Finish,
    /// Report the error of the last step.
    Fail,
    /// Report that the provider gives no parts of files.
    Refuse,
}

/// What became of a step.
#[derive(Clone, Copy, PartialEq, Eq, Structural, Debug)]
pub enum StepResult {
    /// It succeeded, or what was looked for is there.
    Yes,
    /// What was looked for is not there.
    No,
    /// It failed.
    Failed,
}

/// Whether a book is opened in parts before it is downloaded.
pub open spec fn streams_first(provider: Provider, strategy: OpenStrategy) -> bool {
    strategy == OpenStrategy::Auto && provider != Provider::Sftp && provider != Provider::Cloud115
}

/// The step that begins opening a book in parts. Files of an SFTP server can
/// always be read in parts.
pub open spec fn stream_step(provider: Provider) -> OpenAction {
    if provider == Provider::Sftp {
        OpenAction::OpenStream
    } else {
        OpenAction::ProbeRange
    }
}

/// What follows where a book cannot be opened in parts.
pub open spec fn fall_back(provider: Provider, strategy: OpenStrategy) -> OpenAction {
    if streams_first(provider, strategy) {
        OpenAction::Download
    } else {
        OpenAction::Fail
    }
}

/// The first step.
pub open spec fn first_step(provider: Provider, strategy: OpenStrategy) -> OpenAction {
    match strategy {
        OpenStrategy::Download => OpenAction::Download,
        OpenStrategy::Stream => OpenAction::ProbeCache,
        OpenStrategy::Auto => if streams_first(provider, strategy) {
            OpenAction::ProbeCache
        } else {
            OpenAction::Download
        },
    }
}

/// The step after a step.
pub open spec fn step_after(
    provider: Provider,
    strategy: OpenStrategy,
    done: OpenAction,
    result: StepResult,
) -> OpenAction {
    match done {
        OpenAction::ProbeCache => if result == StepResult::Yes {
            OpenAction::OpenCached
        } else {
            stream_step(provider)
        },
        OpenAction::OpenCached => if result == StepResult::Yes {
            OpenAction::Finish
        } else {
            OpenAction::Fail
        },
        OpenAction::ProbeRange => match result {
            StepResult::Yes => OpenAction::OpenStream,
            StepResult::Failed => fall_back(provider, strategy),
            StepResult::No => match provider {
                Provider::WebDav => if strategy == OpenStrategy::Stream {
                    OpenAction::ReadWhole
                } else {
                    fall_back(provider, strategy)
                },
                Provider::Baidu => OpenAction::Fetch,
                Provider::Sftp => OpenAction::Fail,
                _ => if streams_first(provider, strategy) {
                    OpenAction::Download
                } else {
                    OpenAction::Refuse
                },
            },
        },
        OpenAction::OpenStream => if result == StepResult::Yes {
            OpenAction::Finish
        } else {
            fall_back(provider, strategy)
        },
        OpenAction::ReadWhole => if result == StepResult::Yes {
            OpenAction::Finish
        } else {
            OpenAction::Fail
        },
        OpenAction::Fetch => if result == StepResult::Yes {
            OpenAction::OpenFetched
        } else {
            fall_back(provider, strategy)
        },
        OpenAction::OpenFetched => if result == StepResult::Yes {
            OpenAction::Finish
        } else {
            fall_back(provider, strategy)
        },
        OpenAction::Download => if result == StepResult::Yes {
            OpenAction::OpenDownloaded
        } else if strategy == OpenStrategy::Auto && !streams_first(provider, strategy) {
            stream_step(provider)
        } else {
            OpenAction::Fail
        },
        OpenAction::OpenDownloaded => if result == StepResult::Yes {
            OpenAction::Finish
        } else {
            OpenAction::Fail
        },
        OpenAction::Finish => OpenAction::Finish,
        OpenAction::Fail => OpenAction::Fail,
        OpenAction::Refuse => OpenAction::Refuse,
    }
}

/// A book that is being opened.
pub struct OpenBook {
    pub provider: Provider,
    pub strategy: OpenStrategy,
    /// The namespace of its pages.
    pub cache_ns: String,
    /// The step that is to be done.
    pub action: OpenAction,
}

impl OpenBook {
    /// Begins to open a book.
    pub fn begin(provider: Provider, origin: &str, path: &str, strategy: &str) -> (r: OpenBook)
        ensures
            r.provider == provider,
            r.strategy == strategy_named(strategy@),
            r.cache_ns@ == remote_namespace(provider.name(), origin@, path@),
            r.action == first_step(provider, strategy_named(strategy@)),
    {
        let chosen = parse_strategy(strategy);
        let cache_ns = cat5(provider.source_type(), "|", origin, "|", path);
        let action = match chosen {
            OpenStrategy::Download => OpenAction::Download,
            OpenStrategy::Stream => OpenAction::ProbeCache,
            OpenStrategy::Auto => match provider {
                Provider::Sftp => OpenAction::Download,
                Provider::Cloud115 => OpenAction::Download,
                _ => OpenAction::ProbeCache,
            },
        };
        OpenBook { provider, strategy: chosen, cache_ns, action }
    }

    /// Whether progress is shown while the book is opened.
    pub fn shows_progress(&self) -> (r: bool)
        ensures
            r == (self.strategy != OpenStrategy::Stream),
    {
        self.strategy != OpenStrategy::Stream
    }

    fn fallback(&self) -> (r: OpenAction)
        ensures
            r == fall_back(self.provider, self.strategy),
    {
        if self.strategy == OpenStrategy::Auto && self.provider != Provider::Sftp && self.provider
            != Provider::Cloud115 {
            OpenAction::Download
        } else {
            OpenAction::Fail
        }
    }

    fn begin_stream(&self) -> (r: OpenAction)
        ensures
            r == stream_step(self.provider),
    {
        if self.provider == Provider::Sftp {
            OpenAction::OpenStream
        } else {
            OpenAction::ProbeRange
        }
    }

    fn without_range(&self) -> (r: OpenAction)
        ensures
            r == step_after(
                self.provider,
                self.strategy,
                OpenAction::ProbeRange,
                StepResult::No,
            ),
    {
        match self.provider {
            Provider::WebDav => if self.strategy == OpenStrategy::Stream {
                OpenAction::ReadWhole
            } else {
                self.fallback()
            },
            Provider::Baidu => OpenAction::Fetch,
            Provider::Sftp => OpenAction::Fail,
            Provider::Cloud115 => OpenAction::Refuse,
            _ => if self.strategy == OpenStrategy::Auto {
                OpenAction::Download
            } else {
                OpenAction::Refuse
            },
        }
    }

    /// Goes on after the step that was to be done.
    pub fn step(&mut self, result: StepResult)
        ensures
            final(self).provider == old(self).provider,
            final(self).strategy == old(self).strategy,
            final(self).cache_ns == old(self).cache_ns,
            final(self).action == step_after(
                old(self).provider,
                old(self).strategy,
                old(self).action,
                result,
            ),
    {
        let yes = result == StepResult::Yes;
        let next = match self.action {
            OpenAction::ProbeCache => if yes {
                OpenAction::OpenCached
            } else {
                self.begin_stream()
            },
            OpenAction::ProbeRange => match result {
                StepResult::Yes => OpenAction::OpenStream,
                StepResult::Failed => self.fallback(),
                StepResult::No => self.without_range(),
            },
            OpenAction::OpenStream => if yes {
                OpenAction::Finish
            } else {
                self.fallback()
            },
            OpenAction::Fetch => if yes {
                OpenAction::OpenFetched
            } else {
                self.fallback()
            },
            OpenAction::OpenFetched => if yes {
                OpenAction::Finish
            } else {
                self.fallback()
            },
            OpenAction::Download => if yes {
                OpenAction::OpenDownloaded
            } else if self.strategy == OpenStrategy::Auto && (self.provider == Provider::Sftp
                || self.provider == Provider::Cloud115) {
                self.begin_stream()
            } else {
                OpenAction::Fail
            },
            OpenAction::Finish => OpenAction::Finish,
            OpenAction::Fail => OpenAction::Fail,
            OpenAction::Refuse => OpenAction::Refuse,
            OpenAction::OpenCached | OpenAction::ReadWhole | OpenAction::OpenDownloaded => if yes {
                OpenAction::Finish
            } else {
                OpenAction::Fail
            },
        };
        self.action = next;
    }

    /// The text that says that the provider gives no parts of files.
    pub fn no_range_text(&self) -> (r: String)
        ensures
            r@ == (if self.provider == Provider::Quark {
                "夸克直链不支持 Range，请改用整本下载策略"@
            } else {
                "115 直链不支持 Range，请改用整本下载策略"@
            }),
    {
        if self.provider == Provider::Quark {
            "夸克直链不支持 Range，请改用整本下载策略".to_owned()
        } else {
            "115 直链不支持 Range，请改用整本下载策略".to_owned()
        }
    }
}

/// Whether nothing is left to be done.
pub open spec fn is_over(action: OpenAction) -> bool {
    action is Finish || action is Fail || action is Refuse
}

/// How many steps may still follow.
pub open spec fn steps_left(
    provider: Provider,
    strategy: OpenStrategy,
    action: OpenAction,
) -> nat {
    let late = if strategy == OpenStrategy::Auto && !streams_first(provider, strategy) {
        10nat
    } else {
        2nat
    };
    match action {
        OpenAction::ProbeCache => 9,
        OpenAction::OpenCached => 1,
        OpenAction::ProbeRange => 7,
        OpenAction::OpenStream => 5,
        OpenAction::ReadWhole => 5,
        OpenAction::Fetch => 5,
        OpenAction::OpenFetched => 4,
        OpenAction::Download => late,
        OpenAction::OpenDownloaded => 1,
        OpenAction::Finish => 0,
        OpenAction::Fail => 0,
        OpenAction::Refuse => 0,
    }
}

/// Opening a book comes to an end, whatever becomes of its steps.
pub proof fn law_opening_ends(
    provider: Provider,
    strategy: OpenStrategy,
    action: OpenAction,
    result: StepResult,
)
    ensures
        is_over(action) <==> steps_left(provider, strategy, action) == 0,
        !is_over(action) ==> steps_left(
            provider,
            strategy,
            step_after(provider, strategy, action, result),
        ) < steps_left(provider, strategy, action),
{
}

/// Whether a step belongs to a book that is opened as a whole.
pub open spec fn is_whole_step(action: OpenAction) -> bool {
    action is Download || action is OpenDownloaded || action is Finish || action is Fail
}

/// A book that must be downloaded is never opened in parts instead.
pub proof fn law_forced_download_never_streams(
    provider: Provider,
    action: OpenAction,
    result: StepResult,
)
    requires
        is_whole_step(action),
    ensures
        is_whole_step(first_step(provider, OpenStrategy::Download)),
        is_whole_step(step_after(provider, OpenStrategy::Download, action, result)),
{
}

/// A book that is there as a whole is opened from there where it is to be
/// opened in parts, and nothing more is asked of the provider.
pub proof fn law_cached_book_is_opened_from_the_cache(
    provider: Provider,
    strategy: OpenStrategy,
    result: StepResult,
)
    requires
        strategy == OpenStrategy::Stream || streams_first(provider, strategy),
    ensures
        first_step(provider, strategy) == OpenAction::ProbeCache,
        step_after(provider, strategy, OpenAction::ProbeCache, StepResult::Yes)
            == OpenAction::OpenCached,
        is_over(step_after(provider, strategy, OpenAction::OpenCached, result)),
{
}

/// The name by which a document is opened: the clouds that know files by
/// ids alone go by the name of the file, the others by the path.
pub fn document_name(provider: Provider, path: &str, file_name: &Option<String>) -> (r: String)
    ensures
        r@ == (if provider == Provider::Cloud115Cookie || provider == Provider::Quark {
            match *file_name {
                Some(name) => name@,
                None => "file.cbz"@,
            }
        } else {
            path@
        }),
{
    match provider {
        Provider::Cloud115Cookie | Provider::Quark => match file_name {
            Some(name) => name.clone(),
            None => "file.cbz".to_owned(),
        },
        _ => path.to_owned(),
    }
}

/// A book whose whole download may be there.
pub struct CachedBook {
    pub provider: Provider,
    pub origin: String,
    pub cache_ns: String,
}

/// Where the whole download of a book is looked for, and the namespace of
/// its pages: that under which it is also opened otherwise.
pub fn open_cached_remote_book<T>(
    sessions: &Sessions<RemoteSession<T>>,
    kind: &str,
    session: u64,
    path: &str,
) -> (r: Result<CachedBook, String>)
    requires
        sessions.wf(),
    ensures
        match provider_of(*sessions, kind@, session) {
            None => r matches Err(text) && text@ == "未知远程书源类型: "@ + kind@,
            Some(provider) => if is_session(*sessions, provider, session) {
                r matches Ok(book) && book.provider == provider && book.origin
                    == sessions.held()[session].origin && book.cache_ns@ == remote_namespace(
                    kind@,
                    sessions.held()[session].origin@,
                    path@,
                )
            } else {
                r matches Err(text) && text@ == provider.missing_session(session as nat)
            },
        },
{
    let provider = if same(kind, "webdav") {
        Provider::WebDav
    } else if same(kind, "sftp") {
        Provider::Sftp
    } else if same(kind, "baidu") {
        Provider::Baidu
    } else if same(kind, "115") {
        match find_session(sessions, Provider::Cloud115Cookie, session) {
            Ok(_) => Provider::Cloud115Cookie,
            Err(_) => Provider::Cloud115,
        }
    } else if same(kind, "quark") {
        Provider::Quark
    } else {
        return Err(cat2("未知远程书源类型: ", kind));
    };
    match find_session(sessions, provider, session) {
        Ok(found) => Ok(
            CachedBook {
                provider,
                origin: found.origin.clone(),
                cache_ns: cat5(kind, "|", found.origin.as_str(), "|", path),
            },
        ),
        Err(text) => Err(text),
    }
}

/// The name by which a whole download is opened.
pub fn cached_document_name(file_name: &Option<String>) -> (r: String)
    ensures
        r@ == (match *file_name {
            Some(name) => name@,
            None => "file.cbz"@,
        }),
{
    match file_name {
        Some(name) => name.clone(),
        None => "file.cbz".to_owned(),
    }
}

// ------------------------------------------------------------------
// Making a cover
// ------------------------------------------------------------------

/// A step of making a cover.
#[derive(Clone, Copy, PartialEq, Eq, Structural, Debug)]
pub enum CoverAction {
    /// Look for the cover in the cache.
    ReadCover,
    /// Ask the provider for the name of the file.
    ResolveName,
    /// See whether the whole download is there.
    ProbeRaw,
    /// Render the page from the download.
    OpenRaw,
    /// See whether parts of the file can be read.
    ProbeRange,
    /// Render the page from parts of the file.
    OpenStream,
    /// Keep the cover.
    Store,
    /// The cover is there.
    Finish,
    /// Report the error of the last step.
    Fail,
    /// Report that the provider gives no parts of files.
    Refuse,
}

/// The step after a step.
pub open spec fn cover_step_after(
    provider: Provider,
    done: CoverAction,
    result: StepResult,
) -> CoverAction {
    let yes = result == StepResult::Yes;
    match done {
        CoverAction::ReadCover => if yes {
            CoverAction::Finish
        } else if provider == Provider::Cloud115Cookie || provider == Provider::Quark {
            CoverAction::ResolveName
        } else {
            CoverAction::ProbeRaw
        },
        CoverAction::ResolveName => if yes {
            CoverAction::ProbeRaw
        } else {
            CoverAction::Fail
        },
        CoverAction::ProbeRaw => if yes {
            CoverAction::OpenRaw
        } else if provider == Provider::WebDav || provider == Provider::Sftp {
            CoverAction::OpenStream
        } else {
            CoverAction::ProbeRange
        },
        CoverAction::OpenRaw => if yes {
            CoverAction::Store
        } else {
            CoverAction::Fail
        },
        CoverAction::ProbeRange => match result {
            StepResult::Yes => CoverAction::OpenStream,
            StepResult::No => CoverAction::Refuse,
            StepResult::Failed => CoverAction::Fail,
        },
        CoverAction::OpenStream => if yes {
            CoverAction::Store
        } else {
            CoverAction::Fail
        },
        CoverAction::Store => CoverAction::Finish,
        CoverAction::Finish => CoverAction::Finish,
        CoverAction::Fail => CoverAction::Fail,
        CoverAction::Refuse => CoverAction::Refuse,
    }
}

/// The text that says that a cover needs parts of files.
pub const COVER_NEEDS_RANGE: &'static str = "远程封面需要 Range 支持";

/// The step after a step. Making a cover never downloads a whole book.
pub fn cover_step(provider: Provider, done: CoverAction, result: StepResult) -> (r: CoverAction)
    ensures
        r == cover_step_after(provider, done, result),
{
    let yes = result == StepResult::Yes;
    match done {
        CoverAction::ReadCover => if yes {
            CoverAction::Finish
        } else {
            match provider {
                Provider::Cloud115Cookie | Provider::Quark => CoverAction::ResolveName,
                _ => CoverAction::ProbeRaw,
            }
        },
        CoverAction::ResolveName => if yes {
            CoverAction::ProbeRaw
        } else {
            CoverAction::Fail
        },
        CoverAction::ProbeRaw => if yes {
            CoverAction::OpenRaw
        } else {
            match provider {
                Provider::WebDav | Provider::Sftp => CoverAction::OpenStream,
                _ => CoverAction::ProbeRange,
            }
        },
        CoverAction::ProbeRange => match result {
            StepResult::Yes => CoverAction::OpenStream,
            StepResult::No => CoverAction::Refuse,
            StepResult::Failed => CoverAction::Fail,
        },
        CoverAction::OpenRaw | CoverAction::OpenStream => if yes {
            CoverAction::Store
        } else {
            CoverAction::Fail
        },
        CoverAction::Store => CoverAction::Finish,
        CoverAction::Finish => CoverAction::Finish,
        CoverAction::Fail => CoverAction::Fail,
        CoverAction::Refuse => CoverAction::Refuse,
    }
}

/// The path under which the cover of a book is kept: that of its download
/// where there is one, else its own.
pub fn cover_lookup_path(raw: &Option<String>, path: &str) -> (r: String)
    ensures
        r@ == (match *raw {
            Some(p) => p@,
            None => path@,
        }),
{
    match raw {
        Some(p) => p.clone(),
        None => path.to_owned(),
    }
}

// ------------------------------------------------------------------
// Covers of earlier versions
// ------------------------------------------------------------------

/// What a cover of an earlier version is looked up by.
pub struct LegacyCoverLocalLookupDto {
    pub kind: String,
    pub url: String,
    pub host: String,
    pub port: u32,
    pub app_key: String,
    pub app_id: String,
    pub root_id: String,
    pub root: String,
    pub logical_path: String,
    pub page: u32,
    pub width: u32,
    pub height: u32,
    /// The text of the crop in names of covers.
    pub crop: String,
}

/// The endpoint of a host and a port; a port that is none counts as 22.
pub open spec fn endpoint_text(host: Seq<char>, port: u32) -> Seq<char> {
    if port == 22 || port > 0xffff {
        host
    } else {
        host + ":"@ + decimal(port as nat)
    }
}

/// What names a source in cached files, from what is stored of it alone.
pub open spec fn authority(lookup: LegacyCoverLocalLookupDto) -> Option<Seq<char>> {
    let kind = lookup.kind@;
    if kind == "webdav"@ {
        webdav_origin_text(lookup.url@)
    } else if kind == "sftp"@ {
        Some(endpoint_text(lookup.host@, lookup.port))
    } else if kind == "baidu"@ {
        Some("baidu:"@ + lookup.app_key@ + ":"@ + or_default(lookup.root@, "/"@))
    } else if kind == "115"@ {
        Some("115:"@ + lookup.app_id@ + ":"@ + or_default(lookup.root_id@, "0"@))
    } else if kind == "115web"@ {
        Some("115web:"@ + or_default(lookup.root@, "0"@))
    } else if kind == "quark"@ {
        Some("quark:"@ + or_default(lookup.root@, "0"@))
    } else {
        None
    }
}

fn text_or_default(text: &str, fallback: &str) -> (r: String)
    ensures
        r@ == or_default(text@, fallback@),
{
    if blank(text) {
        fallback.to_owned()
    } else {
        text.to_owned()
    }
}

/// What names a source in cached files, from what is stored of it alone.
pub fn legacy_cover_authority(lookup: &LegacyCoverLocalLookupDto) -> (r: Option<String>)
    ensures
        opt_text(r) == authority(*lookup),
{
    let kind = lookup.kind.as_str();
    if same(kind, "webdav") {
        webdav_origin(lookup.url.as_str())
    } else if same(kind, "sftp") {
        if lookup.port == 22 || lookup.port > 0xffff {
            Some(lookup.host.clone())
        } else {
            let port = dec_u64(lookup.port as u64);
            Some(cat3(lookup.host.as_str(), ":", port.as_str()))
        }
    } else if same(kind, "baidu") {
        let root = text_or_default(lookup.root.as_str(), "/");
        Some(cat4("baidu:", lookup.app_key.as_str(), ":", root.as_str()))
    } else if same(kind, "115") {
        let root = text_or_default(lookup.root_id.as_str(), "0");
        Some(cat4("115:", lookup.app_id.as_str(), ":", root.as_str()))
    } else if same(kind, "115web") {
        let root = text_or_default(lookup.root.as_str(), "0");
        Some(cat2("115web:", root.as_str()))
    } else if same(kind, "quark") {
        let root = text_or_default(lookup.root.as_str(), "0");
        Some(cat2("quark:", root.as_str()))
    } else {
        None
    }
}

/// Whether the name of a download follows from the path of its book. Of the
/// others it came from the provider and was not kept.
pub open spec fn names_downloads(kind: Seq<char>) -> bool {
    kind == "webdav"@ || kind == "sftp"@ || kind == "baidu"@ || kind == "115"@
}

/// Whether downloads have names that came from the provider.
pub open spec fn forgets_names(kind: Seq<char>) -> bool {
    kind == "115web"@ || kind == "quark"@
}

/// The paths under which a cover may have been kept, in the order in which
/// they are tried.
pub struct LegacyKeys {
    pub current: String,
    pub alternate: Option<String>,
}

/// The path that is tried first: that of the download that is there, else
/// that of the book.
pub open spec fn current_key(logical: Seq<char>, raw: Option<Seq<char>>) -> Seq<char> {
    match raw {
        Some(path) => path,
        None => logical,
    }
}

/// The path that is tried next: that of the book, or of the download that
/// would be there, where its name is known.
pub open spec fn alternate_key(
    kind: Seq<char>,
    logical: Seq<char>,
    raw: Option<Seq<char>>,
    candidate: Seq<char>,
) -> Option<Seq<char>> {
    match raw {
        Some(_) => Some(logical),
        None => if names_downloads(kind) {
            Some(candidate)
        } else {
            None
        },
    }
}

/// The paths under which a cover may have been kept.
pub fn legacy_cover_keys(
    kind: &str,
    logical: &str,
    raw: &Option<String>,
    candidate: &str,
) -> (r: Option<LegacyKeys>)
    ensures
        match r {
            Some(keys) => {
                &&& names_downloads(kind@) || forgets_names(kind@)
                &&& keys.current@ == current_key(logical@, opt_text(*raw))
                &&& opt_text(keys.alternate) == alternate_key(
                    kind@,
                    logical@,
                    opt_text(*raw),
                    candidate@,
                )
            },
            None => !names_downloads(kind@) && !forgets_names(kind@),
        },
{
    let named = same(kind, "webdav") || same(kind, "sftp") || same(kind, "baidu") || same(
        kind,
        "115",
    );
    if !named && !same(kind, "115web") && !same(kind, "quark") {
        return None;
    }
    match raw {
        Some(path) => Some(
            LegacyKeys { current: path.clone(), alternate: Some(logical.to_owned()) },
        ),
        None => {
            let alternate = if named {
                Some(candidate.to_owned())
            } else {
                None
            };
            Some(LegacyKeys { current: logical.to_owned(), alternate })
        },
    }
}

/// The bytes of the first file of that name.
pub open spec fn file_named(files: Seq<(String, Vec<u8>)>, name: Seq<char>) -> Option<Seq<u8>>
    decreases files.len(),
{
    if files.len() == 0 {
        None
    } else if files[0].0@ == name {
        Some(files[0].1@)
    } else {
        file_named(files.drop_first(), name)
    }
}

/// The cover that is kept under a path.
pub open spec fn kept_cover(
    files: Seq<(String, Vec<u8>)>,
    lookup: LegacyCoverLocalLookupDto,
    path: Seq<char>,
) -> Option<(nat, nat, Seq<u8>)> {
    let name = cover_name(path, lookup.page, lookup.width, lookup.height, lookup.crop@);
    match file_named(files, name) {
        Some(data) => read_payload(data),
        None => None,
    }
}

fn read_kept_cover(
    files: &Vec<(String, Vec<u8>)>,
    lookup: &LegacyCoverLocalLookupDto,
    path: &str,
) -> (r: Option<PageImage>)
    ensures
        match r {
            Some(image) => kept_cover(files@, *lookup, path@) == Some(
                (image.width as nat, image.height as nat, image.rgba@),
            ),
            None => kept_cover(files@, *lookup, path@) is None,
        },
{
    let name = cover_cache_key(
        path,
        lookup.page,
        lookup.width,
        lookup.height,
        lookup.crop.as_str(),
    );
    let mut i: usize = 0;
    assert(files@.skip(0) =~= files@);
    while i < files.len()
        invariant
            i <= files.len(),
            name@ == cover_name(path@, lookup.page, lookup.width, lookup.height, lookup.crop@),
            file_named(files@, name@) == file_named(files@.skip(i as int), name@),
        decreases files.len() - i,
    {
        assert(files@.skip(i as int)[0] == files@[i as int]);
        assert(files@.skip(i as int).drop_first() =~= files@.skip(i + 1));
        if same(files[i].0.as_str(), name.as_str()) {
            return match decode_cover(&files[i].1) {
                Some((rgba, width, height)) => Some(PageImage { rgba, width, height }),
                None => None,
            };
        }
        i = i + 1;
    }
    None
}

/// The width, the height and the pixels of the cover of an earlier version.
pub open spec fn legacy_cover(
    lookup: LegacyCoverLocalLookupDto,
    raw: Option<Seq<char>>,
    candidate: Seq<char>,
    files: Seq<(String, Vec<u8>)>,
) -> Option<(nat, nat, Seq<u8>)> {
    let logical = lookup.logical_path@;
    if authority(lookup) is None {
        None
    } else {
        match kept_cover(files, lookup, current_key(logical, raw)) {
            Some(found) => Some(found),
            None => match alternate_key(lookup.kind@, logical, raw, candidate) {
                Some(path) => kept_cover(files, lookup, path),
                None => None,
            },
        }
    }
}

/// The cover of an earlier version, from the files of the cover cache alone:
/// first under the path that counts now, then under the other one. Where it
/// is under neither there is none, and no provider is asked.
pub fn read_legacy_cover_local(
    lookup: &LegacyCoverLocalLookupDto,
    raw: &Option<String>,
    candidate: &str,
    files: &Vec<(String, Vec<u8>)>,
) -> (r: Option<PageImage>)
    ensures
        match r {
            Some(image) => legacy_cover(*lookup, opt_text(*raw), candidate@, files@) == Some(
                (image.width as nat, image.height as nat, image.rgba@),
            ),
            None => legacy_cover(*lookup, opt_text(*raw), candidate@, files@) is None,
        },
{
    if legacy_cover_authority(lookup).is_none() {
        return None;
    }
    let keys = match legacy_cover_keys(
        lookup.kind.as_str(),
        lookup.logical_path.as_str(),
        raw,
        candidate,
    ) {
        Some(keys) => keys,
        None => {
            return None;
        },
    };
    match read_kept_cover(files, lookup, keys.current.as_str()) {
        Some(image) => {
            return Some(image);
        },
        None => {},
    }
    match &keys.alternate {
        Some(path) => read_kept_cover(files, lookup, path.as_str()),
        None => None,
    }
}

/// A cover is found under the path of its book whether or not its download
/// is there. Where the name of a download follows from the path, a cover
/// kept under the download is found as well, even after the download is
/// gone.
pub proof fn law_covers_outlive_downloads(
    lookup: LegacyCoverLocalLookupDto,
    raw: Option<Seq<char>>,
    candidate: Seq<char>,
    files: Seq<(String, Vec<u8>)>,
    kept_under: Seq<char>,
)
    requires
        authority(lookup) is Some,
        raw is Some ==> raw == Some(candidate),
        kept_cover(files, lookup, kept_under) is Some,
        kept_under == lookup.logical_path@ || (kept_under == candidate && (names_downloads(
            lookup.kind@,
        ) || raw is Some)),
    ensures
        legacy_cover(lookup, raw, candidate, files) is Some,
{
}

/// Where the name of a download came from the provider, a cover that is kept
/// under it alone is out of reach once the download is gone: nothing is
/// guessed.
pub proof fn law_forgotten_names_are_not_guessed(
    lookup: LegacyCoverLocalLookupDto,
    candidate: Seq<char>,
    files: Seq<(String, Vec<u8>)>,
)
    requires
        forgets_names(lookup.kind@),
        kept_cover(files, lookup, lookup.logical_path@) is None,
    ensures
        legacy_cover(lookup, None, candidate, files) is None,
{
    reveal_strlit("115web");
    reveal_strlit("quark");
    reveal_strlit("webdav");
    reveal_strlit("sftp");
    reveal_strlit("baidu");
    reveal_strlit("115");
    let kind = lookup.kind@;
    assert(kind != "webdav"@) by {
        assert("115web"@[0] == '1' && "webdav"@[0] == 'w' && "quark"@[0] == 'q');
    }
    assert(kind != "sftp"@) by {
        assert("115web"@.len() == 6 && "quark"@.len() == 5 && "sftp"@.len() == 4);
    }
    assert(kind != "baidu"@) by {
        assert("115web"@[0] == '1' && "baidu"@[0] == 'b' && "quark"@[0] == 'q');
    }
    assert(kind != "115"@) by {
        assert("115web"@.len() == 6 && "quark"@.len() == 5 && "115"@.len() == 3);
    }
}

// ------------------------------------------------------------------
// What opening a book and making a cover promise
// ------------------------------------------------------------------

/// A book that was opened is open: after each step that opens the document
/// and succeeded nothing more is done. Nothing else ends so.
pub proof fn law_opened_book_is_open(
    provider: Provider,
    strategy: OpenStrategy,
    done: OpenAction,
    result: StepResult,
)
    requires
        !(done is Finish),
    ensures
        step_after(provider, strategy, done, result) == OpenAction::Finish <==> result
            == StepResult::Yes && (done is OpenCached || done is OpenStream || done is ReadWhole
            || done is OpenFetched || done is OpenDownloaded),
{
}

/// What succeeded is used: what was found or brought is opened next.
pub proof fn law_what_was_brought_is_opened(provider: Provider, strategy: OpenStrategy)
    ensures
        step_after(provider, strategy, OpenAction::ProbeCache, StepResult::Yes)
            == OpenAction::OpenCached,
        step_after(provider, strategy, OpenAction::ProbeRange, StepResult::Yes)
            == OpenAction::OpenStream,
        step_after(provider, strategy, OpenAction::Fetch, StepResult::Yes)
            == OpenAction::OpenFetched,
        step_after(provider, strategy, OpenAction::Download, StepResult::Yes)
            == OpenAction::OpenDownloaded,
{
}

/// Opening a book is given up only after a step that did not succeed, and
/// what is open or given up stays so.
pub proof fn law_only_failures_give_up(
    provider: Provider,
    strategy: OpenStrategy,
    done: OpenAction,
    result: StepResult,
)
    ensures
        result == StepResult::Yes && !(done is Fail) ==> step_after(
            provider,
            strategy,
            done,
            result,
        ) != OpenAction::Fail,
        step_after(provider, strategy, done, result) == OpenAction::Refuse && !(done is Refuse)
            ==> done is ProbeRange && result == StepResult::No,
        done is Finish || done is Fail || done is Refuse ==> step_after(
            provider,
            strategy,
            done,
            result,
        ) == done,
{
}

/// A setting that leaves the way open tries both: whichever of a download
/// and of reading parts comes first for the provider, the other follows
/// where it does not succeed, and the book is given up only after both.
/// SFTP and the open 115 interface download first, the others read parts
/// first.
pub proof fn law_auto_tries_both_ways(provider: Provider, failed: StepResult)
    requires
        failed != StepResult::Yes,
    ensures
        ({
            let auto = OpenStrategy::Auto;
            if provider == Provider::Sftp || provider == Provider::Cloud115 {
                &&& first_step(provider, auto) == OpenAction::Download
                &&& step_after(provider, auto, OpenAction::Download, failed) == (if provider
                    == Provider::Sftp {
                    OpenAction::OpenStream
                } else {
                    OpenAction::ProbeRange
                })
                &&& step_after(provider, auto, OpenAction::OpenStream, failed) == OpenAction::Fail
                &&& step_after(provider, auto, OpenAction::OpenDownloaded, failed)
                    == OpenAction::Fail
            } else {
                &&& first_step(provider, auto) == OpenAction::ProbeCache
                &&& step_after(provider, auto, OpenAction::ProbeCache, failed)
                    == OpenAction::ProbeRange
                &&& step_after(provider, auto, OpenAction::ProbeRange, StepResult::Failed)
                    == OpenAction::Download
                &&& step_after(provider, auto, OpenAction::ProbeRange, StepResult::No) == (
                if provider == Provider::Baidu {
                    OpenAction::Fetch
                } else {
                    OpenAction::Download
                })
                &&& step_after(provider, auto, OpenAction::OpenStream, failed)
                    == OpenAction::Download
                &&& step_after(provider, auto, OpenAction::Fetch, failed) == OpenAction::Download
                &&& step_after(provider, auto, OpenAction::OpenFetched, failed)
                    == OpenAction::Download
                &&& step_after(provider, auto, OpenAction::Download, failed) == OpenAction::Fail
                &&& step_after(provider, auto, OpenAction::OpenDownloaded, failed)
                    == OpenAction::Fail
                &&& step_after(provider, auto, OpenAction::OpenCached, failed) == OpenAction::Fail
            }
        }),
{
}

/// A book that is to be read in parts is never downloaded as a whole with
/// progress: it is looked for in the cache, then read in parts; where the
/// provider gives none, WebDAV reads the file at once, Baidu fetches it, and
/// the clouds refuse.
pub proof fn law_forced_stream_never_downloads(
    provider: Provider,
    done: OpenAction,
    result: StepResult,
)
    requires
        !(done is Download),
        !(done is OpenDownloaded),
    ensures
        ({
            let stream = OpenStrategy::Stream;
            let next = step_after(provider, stream, done, result);
            &&& first_step(provider, stream) == OpenAction::ProbeCache
            &&& next != OpenAction::Download && next != OpenAction::OpenDownloaded
            &&& done is ProbeCache && result != StepResult::Yes ==> next == (if provider
                == Provider::Sftp {
                OpenAction::OpenStream
            } else {
                OpenAction::ProbeRange
            })
            &&& done is ProbeRange && result == StepResult::No ==> next == (match provider {
                Provider::WebDav => OpenAction::ReadWhole,
                Provider::Baidu => OpenAction::Fetch,
                Provider::Sftp => OpenAction::Fail,
                _ => OpenAction::Refuse,
            })
            &&& !(done is ProbeCache) && !(done is ProbeRange && result == StepResult::No)
                && !(done is Refuse) && result != StepResult::Yes && !(done is Finish)
                ==> next == OpenAction::Fail
        }),
{
}

/// A setting names a strategy by its own word; every other word leaves the
/// way open.
pub proof fn law_strategies_have_their_words(s: Seq<char>)
    ensures
        strategy_named(s) == OpenStrategy::Download <==> s == "download"@,
        strategy_named(s) == OpenStrategy::Stream <==> s == "stream"@,
        strategy_named(s) == OpenStrategy::Auto <==> s != "download"@ && s != "stream"@,
{
    reveal_strlit("download");
    reveal_strlit("stream");
    assert("download"@.len() == 8 && "stream"@.len() == 6);
}

/// A cover that is kept is shown at once. Every other cover is made from the
/// download where that is there, else from parts of the file, and a cover
/// that was made is stored before it is shown; a whole book is never
/// downloaded for it.
pub proof fn law_covers_are_made_once(provider: Provider, done: CoverAction, result: StepResult)
    ensures
        ({
            let next = cover_step_after(provider, done, result);
            let yes = result == StepResult::Yes;
            &&& !(done is Finish) ==> (next == CoverAction::Finish <==> (done is ReadCover && yes)
                || done is Store)
            &&& !(done is Store) ==> (next == CoverAction::Store <==> yes && (done is OpenRaw
                || done is OpenStream))
            &&& next == CoverAction::OpenRaw <==> done is ProbeRaw && yes
            &&& next == CoverAction::OpenStream <==> (done is ProbeRange && yes) || (done is ProbeRaw
                && !yes && (provider == Provider::WebDav || provider == Provider::Sftp))
            &&& next == CoverAction::ProbeRange <==> done is ProbeRaw && !yes && !(provider
                == Provider::WebDav || provider == Provider::Sftp)
            &&& next == CoverAction::ResolveName <==> done is ReadCover && !yes && (provider
                == Provider::Cloud115Cookie || provider == Provider::Quark)
            &&& next == CoverAction::ProbeRaw <==> (done is ResolveName && yes) || (
            done is ReadCover && !yes && !(provider == Provider::Cloud115Cookie || provider
                == Provider::Quark))
            &&& !(done is Refuse) ==> (next == CoverAction::Refuse <==> done is ProbeRange
                && result == StepResult::No)
            &&& !(done is Fail) && next == CoverAction::Fail ==> !yes
            &&& done is Finish || done is Fail || done is Refuse ==> next == done
            &&& next != CoverAction::ReadCover || done is ReadCover
        }),
{
}

/// The endpoint of a server tells its port unless that is the usual one.
pub proof fn law_endpoints_tell_their_port(host: Seq<char>, a: u32, b: u32)
    requires
        a <= 0xffff,
        b <= 0xffff,
    ensures
        endpoint_text(host, 22) == host,
        endpoint_text(host, a) == endpoint_text(host, b) <==> a == b,
{
    reveal_strlit(":");
    if a != 22 && b != 22 {
        let x = endpoint_text(host, a);
        let y = endpoint_text(host, b);
        let da = decimal(a as nat);
        let db = decimal(b as nat);
        let n = host.len() as int + 1;
        if x == y {
            assert(da =~= x.skip(n));
            assert(db =~= y.skip(n));
            lemma_decimal_injective(a as nat, b as nat);
        }
    } else if a != 22 {
        assert(endpoint_text(host, a).len() > host.len());
    } else if b != 22 {
        assert(endpoint_text(host, b).len() > host.len());
    }
}

/// What names a source in the cached files of earlier versions is what names
/// it now: the origin of an address, and the kinds of clouds with their
/// clients and roots.
pub proof fn law_earlier_versions_named_sources_alike(
    lookup: LegacyCoverLocalLookupDto,
    s: SourceIdentity,
)
    requires
        lookup.kind@ == "115web"@ ==> s.source_type@ == "115"@ && s.cookie_mode,
        lookup.kind@ == "115"@ ==> s.source_type@ == "115"@ && !s.cookie_mode,
        lookup.kind@ != "115web"@ && lookup.kind@ != "115"@ ==> s.source_type@ == lookup.kind@,
        lookup.kind@ == "webdav"@ ==> opt_text(s.url) == Some(lookup.url@),
        lookup.kind@ == "baidu"@ ==> opt_text(s.client_id) == Some(lookup.app_key@)
            && s.root_path@ == lookup.root@,
        lookup.kind@ == "115"@ ==> opt_text(s.client_id) == Some(lookup.app_id@) && opt_text(
            s.root_id,
        ) == Some(lookup.root_id@),
        lookup.kind@ == "115web"@ || lookup.kind@ == "quark"@ ==> opt_text(s.root_id) == Some(
            lookup.root@,
        ),
        lookup.kind@ == "sftp"@ ==> opt_text(s.url) == Some(lookup.host@) && lookup.host@.len() > 0
            && !lookup.host@.contains(':') && !lookup.host@.contains('/')
            && !CharClass::White.holds(lookup.host@[0]) && !CharClass::White.holds(
            lookup.host@.last(),
        ) && 0 < lookup.port <= 0xffff && s.port == Some(lookup.port as i64),
    ensures
        authority(lookup) == origin(s),
{
    law_sources_have_their_origins(s);
    lemma_names_of_kinds_differ();
    if lookup.kind@ == "sftp"@ {
        law_endpoints_of_servers(lookup.host@, lookup.port as i64);
    }
}

proof fn lemma_names_of_kinds_differ()
    ensures
        "115web"@ != "115"@,
        "115web"@ != "webdav"@,
        "115web"@ != "sftp"@,
        "115web"@ != "baidu"@,
        "115web"@ != "quark"@,
        "115"@ != "webdav"@,
        "115"@ != "sftp"@,
        "115"@ != "baidu"@,
        "115"@ != "quark"@,
        "webdav"@ != "sftp"@,
        "webdav"@ != "baidu"@,
        "webdav"@ != "quark"@,
        "sftp"@ != "baidu"@,
        "sftp"@ != "quark"@,
        "baidu"@ != "quark"@,
{
    reveal_strlit("115web");
    reveal_strlit("quark");
    reveal_strlit("webdav");
    reveal_strlit("sftp");
    reveal_strlit("baidu");
    reveal_strlit("115");
    assert("115web"@.len() == 6 && "webdav"@.len() == 6 && "quark"@.len() == 5);
    assert("sftp"@.len() == 4 && "baidu"@.len() == 5 && "115"@.len() == 3);
    assert("115web"@[0] == '1' && "webdav"@[0] == 'w' && "quark"@[0] == 'q' && "baidu"@[0] == 'b');
}

/// The kinds whose downloads are named by the path of the book, and those
/// whose downloads are named by the provider.
pub proof fn law_kinds_name_their_downloads(kind: Seq<char>)
    ensures
        names_downloads(kind) <==> kind == "webdav"@ || kind == "sftp"@ || kind == "baidu"@ || kind
            == "115"@,
        forgets_names(kind) <==> kind == "115web"@ || kind == "quark"@,
        !(names_downloads(kind) && forgets_names(kind)),
{
    lemma_names_of_kinds_differ();
}

/// The cover of an earlier version is looked for under the path of the
/// download that is there, else under that of the book; where it is not
/// there under the other of the two, the path of the download that would be
/// there being one where its name is known.
pub proof fn law_earlier_covers_are_looked_for_twice(
    lookup: LegacyCoverLocalLookupDto,
    download: Option<Seq<char>>,
    candidate: Seq<char>,
    files: Seq<(String, Vec<u8>)>,
)
    ensures
        authority(lookup) is Some ==> ({
            let book = kept_cover(files, lookup, lookup.logical_path@);
            let found = legacy_cover(lookup, download, candidate, files);
            &&& download matches Some(path) ==> found == (if kept_cover(files, lookup, path) is Some {
                kept_cover(files, lookup, path)
            } else {
                book
            })
            &&& download is None && book is Some ==> found == book
            &&& download is None && book is None && names_downloads(lookup.kind@) ==> found
                == kept_cover(files, lookup, candidate)
        }),
        authority(lookup) is None ==> legacy_cover(lookup, download, candidate, files) is None,
{
}

} // verus!
