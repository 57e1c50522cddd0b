//! Sessions with remote sources, and the paths by which they know files.

use vstd::prelude::*;
use vstd::string::*;

use crate::api::cache::remote_namespace;
use crate::number::{
    all_digits, dec_u64, decimal, is_digit, law_decimal_reads_back, lemma_decimal_digits,
    parse_unsigned, unsigned_value,
};
use crate::remote_scan::model::{
    canonical, canonical_child, canonical_child_path, normalize_path, RemoteAssetKind, RemoteEntry,
    RemoteScanError,
};
use crate::session::Sessions;
use crate::text::{
    ascii_lower, blank, cat2, cat5, chars_of, contains, find, is_blank, lowered, occurs, opt_text,
    pieces, same, split, stands_at, texts, trim_start, trimmed_start, CharClass,
};

verus! {

// ------------------------------------------------------------------
// Providers and sessions
// ------------------------------------------------------------------

/// The kinds of remote sources. Of 115 there are two: one reached as an
/// application, one with the cookie of a login.
#[derive(Clone, Copy, PartialEq, Eq, Structural, Debug)]
pub enum Provider {
    WebDav,
    Sftp,
    Baidu,
    Cloud115,
    Cloud115Cookie,
    Quark,
}

impl Provider {
    /// The type of its sources.
    pub open spec fn name(self) -> Seq<char> {
        match self {
            Provider::WebDav => "webdav"@,
            Provider::Sftp => "sftp"@,
            Provider::Baidu => "baidu"@,
            Provider::Cloud115 => "115"@,
            Provider::Cloud115Cookie => "115"@,
            Provider::Quark => "quark"@,
        }
    }

    /// The type of its sources.
    pub fn source_type(self) -> (r: &'static str)
        ensures
            r@ == self.name(),
    {
        match self {
            Provider::WebDav => "webdav",
            Provider::Sftp => "sftp",
            Provider::Baidu => "baidu",
            Provider::Cloud115 => "115",
            Provider::Cloud115Cookie => "115",
            Provider::Quark => "quark",
        }
    }

    /// Whether files are known by ids that say nothing of their path.
    pub open spec fn is_opaque(self) -> bool {
        !(self is WebDav || self is Sftp)
    }

    /// Whether files are known by ids that say nothing of their path.
    pub fn opaque(self) -> (r: bool)
        ensures
            r == self.is_opaque(),
    {
        match self {
            Provider::WebDav => false,
            Provider::Sftp => false,
            _ => true,
        }
    }

    /// The text that refuses a session that is not there.
    pub open spec fn missing_session(self, id: nat) -> Seq<char> {
        match self {
            Provider::WebDav => "无效的 WebDAV 会话: "@ + decimal(id),
            Provider::Sftp => "无效的 SFTP 会话: "@ + decimal(id),
            Provider::Baidu => "无效的百度网盘会话: "@ + decimal(id),
            Provider::Cloud115 => "无效的 115 网盘会话: "@ + decimal(id),
            Provider::Cloud115Cookie => "115 Cookie 会话不存在，请重新连接"@,
            Provider::Quark => "无效的夸克网盘会话: "@ + decimal(id),
        }
    }
}

/// An open session with a source.
pub struct RemoteSession<T> {
    pub provider: Provider,
    /// What names the source in cached files.
    pub origin: String,
    /// The path or the id that the source begins with.
    pub root: String,
    pub client: T,
}

/// Whether a session of the provider is open under the id.
pub open spec fn is_session<T>(
    sessions: Sessions<RemoteSession<T>>,
    provider: Provider,
    id: u64,
) -> bool {
    sessions.held().dom().contains(id) && sessions.held()[id].provider == provider
}

/// The session of a provider.
pub fn find_session<T>(
    sessions: &Sessions<RemoteSession<T>>,
    provider: Provider,
    id: u64,
) -> (r: Result<&RemoteSession<T>, String>)
    requires
        sessions.wf(),
    ensures
        match r {
            Ok(session) => is_session(*sessions, provider, id) && *session == sessions.held()[id],
            Err(text) => !is_session(*sessions, provider, id) && text@ == provider.missing_session(
                id as nat,
            ),
        },
{
    match sessions.get(id) {
        Some(session) => {
            if session.provider == provider {
                return Ok(session);
            }
        },
        None => {},
    }
    let number = dec_u64(id);
    let n = number.as_str();
    Err(
        match provider {
            Provider::WebDav => cat2("无效的 WebDAV 会话: ", n),
            Provider::Sftp => cat2("无效的 SFTP 会话: ", n),
            Provider::Baidu => cat2("无效的百度网盘会话: ", n),
            Provider::Cloud115 => cat2("无效的 115 网盘会话: ", n),
            Provider::Cloud115Cookie => "115 Cookie 会话不存在，请重新连接".to_owned(),
            Provider::Quark => cat2("无效的夸克网盘会话: ", n),
        },
    )
}

/// The provider that a type of sources stands for, by its session: a 115
/// session is one with a cookie where there is such a one.
pub open spec fn provider_of<T>(
    sessions: Sessions<RemoteSession<T>>,
    source_type: Seq<char>,
    id: u64,
) -> Option<Provider> {
    if source_type == "webdav"@ {
        Some(Provider::WebDav)
    } else if source_type == "sftp"@ {
        Some(Provider::Sftp)
    } else if source_type == "baidu"@ {
        Some(Provider::Baidu)
    } else if source_type == "115"@ {
        if is_session(sessions, Provider::Cloud115Cookie, id) {
            Some(Provider::Cloud115Cookie)
        } else {
            Some(Provider::Cloud115)
        }
    } else if source_type == "quark"@ {
        Some(Provider::Quark)
    } else {
        None
    }
}

fn choose_provider<T>(
    sessions: &Sessions<RemoteSession<T>>,
    source_type: &str,
    id: u64,
) -> (r: Option<Provider>)
    requires
        sessions.wf(),
    ensures
        r == provider_of(*sessions, source_type@, id),
{
    if same(source_type, "webdav") {
        Some(Provider::WebDav)
    } else if same(source_type, "sftp") {
        Some(Provider::Sftp)
    } else if same(source_type, "baidu") {
        Some(Provider::Baidu)
    } else if same(source_type, "115") {
        match find_session(sessions, Provider::Cloud115Cookie, id) {
            Ok(_) => Some(Provider::Cloud115Cookie),
            Err(_) => Some(Provider::Cloud115),
        }
    } else if same(source_type, "quark") {
        Some(Provider::Quark)
    } else {
        None
    }
}

/// Whether sources of a type can be scanned.
pub open spec fn is_remote_type(source_type: Seq<char>) -> bool {
    ||| source_type == "webdav"@ || source_type == "sftp"@ || source_type == "baidu"@
    ||| source_type == "115"@ || source_type == "quark"@
}

/// Whether sources of a type can be scanned.
pub fn supports_remote_scan(source_type: &str) -> (r: bool)
    ensures
        r == is_remote_type(source_type@),
{
    same(source_type, "webdav") || same(source_type, "sftp") || same(source_type, "baidu") || same(
        source_type,
        "115",
    ) || same(source_type, "quark")
}

// ------------------------------------------------------------------
// What is shown of sessions
// ------------------------------------------------------------------

/// A WebDAV session.
pub struct WebDavSession {
    pub id: u64,
    pub root: String,
    /// `local`, `webdav_range` or `webdav_norange`.
    pub capability_label: String,
}

/// An SFTP session.
pub struct SftpSessionInfo {
    pub id: u64,
    pub root: String,
    pub capability_label: String,
}

/// The code that a login to 115 in the browser shows.
pub struct Cloud115CookieQrPayload {
    pub uid: String,
    pub time: i64,
    pub sign: String,
    pub qrcode: String,
}

/// A 115 session with a cookie.
pub struct Cloud115CookieSessionInfo {
    pub id: u64,
    pub root: String,
    pub capability_label: String,
    pub cookie: String,
}

/// The code that a login to Quark shows.
pub struct QuarkQrPayload {
    pub token: String,
    pub request_id: String,
    pub qrcode: String,
}

/// A Quark session.
pub struct QuarkSessionInfo {
    pub id: u64,
    pub root: String,
    pub capability_label: String,
    /// It may have been renewed.
    pub cookie: String,
}

/// The tokens of a Baidu account.
#[derive(Debug)]
pub struct BaiduTokenPair {
    pub access_token: String,
    pub refresh_token: String,
}

/// A Baidu session.
pub struct BaiduSessionInfo {
    pub id: u64,
    pub root: String,
    pub capability_label: String,
    /// It may have been renewed.
    pub refresh_token: String,
}

/// The code that a 115 application shows to be let in.
#[derive(Debug)]
pub struct Cloud115QrPayload {
    pub uid: String,
    pub time: i64,
    pub sign: String,
    pub qrcode: String,
}

/// How far letting in a 115 application has come.
#[derive(Debug)]
pub struct Cloud115QrPollResult {
    pub status: i32,
    pub access_token: Option<String>,
    pub refresh_token: Option<String>,
}

/// A 115 session of an application.
pub struct Cloud115SessionInfo {
    pub id: u64,
    pub root: String,
    pub capability_label: String,
    /// It may have been renewed.
    pub refresh_token: String,
}

/// How a WebDAV server is labelled: near ones count as local, and of the
/// others it matters whether parts of files can be read.
pub fn webdav_capability_label(near: bool, range_supported: bool) -> (r: &'static str)
    ensures
        r@ == (if near {
            "local"@
        } else if range_supported {
            "webdav_range"@
        } else {
            "webdav_norange"@
        }),
{
    if near {
        "local"
    } else if range_supported {
        "webdav_range"
    } else {
        "webdav_norange"
    }
}

/// Opens a session with a WebDAV server.
pub fn webdav_connect<T>(
    sessions: &mut Sessions<RemoteSession<T>>,
    client: T,
    origin: String,
    root: String,
    near: bool,
    range_supported: bool,
) -> (r: WebDavSession)
    requires
        old(sessions).wf(),
        old(sessions).last_handle() < u64::MAX,
    ensures
        final(sessions).wf(),
        r.id == old(sessions).last_handle() + 1,
        r.root == root,
        r.capability_label@ == (if near {
            "local"@
        } else if range_supported {
            "webdav_range"@
        } else {
            "webdav_norange"@
        }),
        final(sessions).last_handle() == r.id,
        final(sessions).held() == old(sessions).held().insert(
            r.id,
            (RemoteSession { provider: Provider::WebDav, origin, root, client }),
        ),
{
    let shown = root.clone();
    let id: u64 = sessions.register(
        RemoteSession { provider: Provider::WebDav, origin, root, client },
    );
    WebDavSession {
        id,
        root: shown,
        capability_label: webdav_capability_label(near, range_supported).to_owned(),
    }
}

/// The root of every SFTP session.
pub const SFTP_ROOT: &'static str = "/";

/// Opens a session with an SFTP server.
pub fn sftp_connect<T>(
    sessions: &mut Sessions<RemoteSession<T>>,
    client: T,
    endpoint: String,
) -> (r: SftpSessionInfo)
    requires
        old(sessions).wf(),
        old(sessions).last_handle() < u64::MAX,
    ensures
        final(sessions).wf(),
        r.id == old(sessions).last_handle() + 1,
        r.root@ == SFTP_ROOT@,
        r.capability_label@ == "sftp"@,
        final(sessions).last_handle() == r.id,
        final(sessions).held() == old(sessions).held().insert(
            r.id,
            (RemoteSession { provider: Provider::Sftp, origin: endpoint, root: r.root, client }),
        ),
{
    let root = SFTP_ROOT.to_owned();
    let shown = root.clone();
    let id: u64 = sessions.register(
        RemoteSession { provider: Provider::Sftp, origin: endpoint, root, client },
    );
    SftpSessionInfo { id, root: shown, capability_label: "sftp".to_owned() }
}

/// Opens a session with a cloud.
pub fn cloud_connect<T>(
    sessions: &mut Sessions<RemoteSession<T>>,
    provider: Provider,
    client: T,
    origin: String,
    root: String,
) -> (r: u64)
    requires
        old(sessions).wf(),
        old(sessions).last_handle() < u64::MAX,
    ensures
        final(sessions).wf(),
        r == old(sessions).last_handle() + 1,
        final(sessions).last_handle() == r,
        final(sessions).held() == old(sessions).held().insert(
            r,
            (RemoteSession { provider, origin, root, client }),
        ),
{
    sessions.register(RemoteSession { provider, origin, root, client })
}

/// Whether the whole download of a book is there, as far as its session is
/// open.
fn has_raw_cache<T>(
    sessions: &Sessions<RemoteSession<T>>,
    provider: Provider,
    session: u64,
    cached: bool,
) -> (r: bool)
    requires
        sessions.wf(),
    ensures
        r == (is_session(*sessions, provider, session) && cached),
{
    match find_session(sessions, provider, session) {
        Ok(_) => cached,
        Err(_) => false,
    }
}

/// Whether the whole download of a WebDAV book is there.
pub fn webdav_has_raw_cache<T>(
    sessions: &Sessions<RemoteSession<T>>,
    session: u64,
    cached: bool,
) -> (r: bool)
    requires
        sessions.wf(),
    ensures
        r == (is_session(*sessions, Provider::WebDav, session) && cached),
{
    has_raw_cache(sessions, Provider::WebDav, session, cached)
}

/// Whether the whole download of an SFTP book is there.
pub fn sftp_has_raw_cache<T>(
    sessions: &Sessions<RemoteSession<T>>,
    session: u64,
    cached: bool,
) -> (r: bool)
    requires
        sessions.wf(),
    ensures
        r == (is_session(*sessions, Provider::Sftp, session) && cached),
{
    has_raw_cache(sessions, Provider::Sftp, session, cached)
}

/// Whether the whole download of a Baidu book is there.
pub fn baidu_has_raw_cache<T>(
    sessions: &Sessions<RemoteSession<T>>,
    session: u64,
    cached: bool,
) -> (r: bool)
    requires
        sessions.wf(),
    ensures
        r == (is_session(*sessions, Provider::Baidu, session) && cached),
{
    has_raw_cache(sessions, Provider::Baidu, session, cached)
}

/// Whether the whole download of a 115 book is there.
pub fn cloud115_has_raw_cache<T>(
    sessions: &Sessions<RemoteSession<T>>,
    session: u64,
    cached: bool,
) -> (r: bool)
    requires
        sessions.wf(),
    ensures
        r == (is_session(*sessions, Provider::Cloud115, session) && cached),
{
    has_raw_cache(sessions, Provider::Cloud115, session, cached)
}

/// Whether the whole download of a 115 book of a login is there.
pub fn cloud115_cookie_has_raw_cache<T>(
    sessions: &Sessions<RemoteSession<T>>,
    session: u64,
    cached: bool,
) -> (r: bool)
    requires
        sessions.wf(),
    ensures
        r == (is_session(*sessions, Provider::Cloud115Cookie, session) && cached),
{
    has_raw_cache(sessions, Provider::Cloud115Cookie, session, cached)
}

/// Whether the whole download of a Quark book is there.
pub fn quark_has_raw_cache<T>(
    sessions: &Sessions<RemoteSession<T>>,
    session: u64,
    cached: bool,
) -> (r: bool)
    requires
        sessions.wf(),
    ensures
        r == (is_session(*sessions, Provider::Quark, session) && cached),
{
    has_raw_cache(sessions, Provider::Quark, session, cached)
}

// ------------------------------------------------------------------
// Errors of providers
// ------------------------------------------------------------------

/// How many digits a text begins with.
pub open spec fn leading_digits(s: Seq<char>) -> nat
    decreases s.len(),
{
    if s.len() > 0 && is_digit(s[0]) {
        1 + leading_digits(s.drop_first())
    } else {
        0
    }
}

/// The number that stands behind the first `prefix` in a text.
pub open spec fn number_behind(text: Seq<char>, prefix: Seq<char>) -> Option<nat> {
    if occurs(text, prefix) {
        let at = first_at(text, prefix);
        let rest = text.skip(at + prefix.len());
        unsigned_value(rest.take(leading_digits(rest) as int), u64::MAX as nat)
    } else {
        None
    }
}

/// The first position at which `needle` stands in `hay`.
pub open spec fn first_at(hay: Seq<char>, needle: Seq<char>) -> int {
    choose|i: int|
        stands_at(hay, needle, i) && forall|j: int|
            0 <= j < i ==> !#[trigger] stands_at(hay, needle, j)
}

/// How long a provider asks to wait, in milliseconds, where it says so.
pub open spec fn wait_asked(text: Seq<char>) -> Option<nat> {
    match number_behind(text, "retry-after-ms="@) {
        Some(n) => Some(n),
        None => number_behind(text, "retry_after_ms="@),
    }
}

fn read_number_behind(text: &str, prefix: &str) -> (r: Option<u64>)
    ensures
        match r {
            Some(n) => number_behind(text@, prefix@) == Some(n as nat),
            None => number_behind(text@, prefix@) is None,
        },
{
    let at: usize = match find(text, prefix) {
        Some(i) => i,
        None => return None,
    };
    proof {
        assert(stands_at(text@, prefix@, at as int));
        let first = first_at(text@, prefix@);
        assert(stands_at(text@, prefix@, first) && forall|j: int|
            0 <= j < first ==> !#[trigger] stands_at(text@, prefix@, j));
        assert(first == at) by {
            if first < at {
                assert(!stands_at(text@, prefix@, first));
            }
            if at < first {
                assert(!stands_at(text@, prefix@, at as int));
            }
        }
    }
    let v = chars_of(text);
    let p = chars_of(prefix);
    let whole: usize = v.len();
    assert(at + p.len() <= whole);
    let start: usize = at + p.len();
    let ghost rest = text@.skip(start as int);
    let mut end: usize = start;
    assert(rest.skip(0) =~= rest);
    while end < v.len() && v[end] >= '0' && v[end] <= '9'
        invariant
            v@ == text@,
            rest == text@.skip(start as int),
            start <= end <= v.len(),
            leading_digits(rest) == end - start + leading_digits(rest.skip(end - start)),
        decreases v.len() - end,
    {
        assert(rest.skip(end - start)[0] == v@[end as int]);
        assert(rest.skip(end - start).drop_first() =~= rest.skip(end + 1 - start));
        end = end + 1;
    }
    proof {
        let left = rest.skip(end - start);
        if left.len() > 0 {
            assert(left[0] == v@[end as int]);
        }
        assert(leading_digits(left) == 0);
        assert(text@.subrange(start as int, end as int) =~= rest.take(end - start));
    }
    let digits = text.substring_char(start, end);
    parse_unsigned(digits, u64::MAX)
}

/// How long a provider asks to wait, in milliseconds, where it says so.
pub fn retry_after_ms(text: &str) -> (r: Option<u64>)
    ensures
        match r {
            Some(n) => wait_asked(text@) == Some(n as nat),
            None => wait_asked(text@) is None,
        },
{
    match read_number_behind(text, "retry-after-ms=") {
        Some(n) => Some(n),
        None => read_number_behind(text, "retry_after_ms="),
    }
}

/// What the error of a provider comes down to. `t` is its text in lower
/// case.
pub open spec fn classifies(e: RemoteScanError, t: Seq<char>) -> bool {
    if occurs(t, "http 405"@) || occurs(t, "http: 405"@) {
        e matches RemoteScanError::HttpStatus { stage, status } && stage@ == "downurl"@ && status
            == 405
    } else if occurs(t, "401"@) || occurs(t, "登录"@) || occurs(t, "token"@) || occurs(
        t,
        "认证"@,
    ) {
        e is Unauthorized
    } else if occurs(t, "403"@) || occurs(t, "权限"@) || occurs(t, "forbidden"@) {
        e is Forbidden
    } else if occurs(t, "404"@) || occurs(t, "不存在"@) || occurs(t, "not found"@) {
        e is NotFound
    } else if occurs(t, "429"@) || occurs(t, "频繁"@) || occurs(t, "rate"@) {
        e matches RemoteScanError::RateLimited { retry_after_ms } && asks_for(retry_after_ms, t)
    } else if occurs(t, "timeout"@) || occurs(t, "timed out"@) || occurs(t, "连接"@) || occurs(
        t,
        "network"@,
    ) {
        e matches RemoteScanError::TransientNetwork(code) && code@ == "provider_unavailable"@
    } else {
        e matches RemoteScanError::Provider(code) && code@ == "provider_error"@
    }
}

/// Whether `wait` is what the provider asks for.
pub open spec fn asks_for(wait: Option<u64>, t: Seq<char>) -> bool {
    match wait {
        Some(n) => wait_asked(t) == Some(n as nat),
        None => wait_asked(t) is None,
    }
}

/// What the error of a provider comes down to.
pub fn scan_error(text: &str) -> (r: RemoteScanError)
    ensures
        classifies(r, lowered(text@)),
{
    let lower = ascii_lower(text);
    let t = lower.as_str();
    if contains(t, "http 405") || contains(t, "http: 405") {
        RemoteScanError::HttpStatus { stage: "downurl".to_owned(), status: 405 }
    } else if contains(t, "401") || contains(t, "登录") || contains(t, "token") || contains(
        t,
        "认证",
    ) {
        RemoteScanError::Unauthorized
    } else if contains(t, "403") || contains(t, "权限") || contains(t, "forbidden") {
        RemoteScanError::Forbidden
    } else if contains(t, "404") || contains(t, "不存在") || contains(t, "not found") {
        RemoteScanError::NotFound
    } else if contains(t, "429") || contains(t, "频繁") || contains(t, "rate") {
        let wait: Option<u64> = retry_after_ms(t);
        RemoteScanError::RateLimited { retry_after_ms: wait }
    } else if contains(t, "timeout") || contains(t, "timed out") || contains(t, "连接") || contains(
        t,
        "network",
    ) {
        RemoteScanError::TransientNetwork("provider_unavailable".to_owned())
    } else {
        RemoteScanError::Provider("provider_error".to_owned())
    }
}

/// What the error of a read comes down to. `t` is its text in lower case.
pub open spec fn classifies_read(e: RemoteScanError, t: Seq<char>) -> bool {
    if occurs(t, "http 405"@) || occurs(t, "http: 405"@) {
        e matches RemoteScanError::HttpStatus { stage, status } && stage@ == "range_read"@ && status
            == 405
    } else if occurs(t, "401"@) || occurs(t, "unauthorized"@) {
        e is Unauthorized
    } else if occurs(t, "403"@) || occurs(t, "forbidden"@) {
        e is Forbidden
    } else if occurs(t, "404"@) || occurs(t, "not found"@) {
        e is NotFound
    } else if occurs(t, "429"@) || occurs(t, "rate"@) || occurs(t, "频繁"@) {
        e matches RemoteScanError::RateLimited { retry_after_ms } && asks_for(retry_after_ms, t)
    } else if occurs(t, "200"@) && occurs(t, "range"@) {
        e is RangeUnavailable
    } else if occurs(t, "timeout"@) || occurs(t, "timed out"@) || occurs(t, "连接"@) || occurs(
        t,
        "network"@,
    ) || occurs(t, "请求失败"@) {
        e matches RemoteScanError::TransientNetwork(code) && code@ == "range_read_failed"@
    } else {
        e matches RemoteScanError::Provider(code) && code@ == "range_read_failed"@
    }
}

/// What the error of a read comes down to.
pub fn scan_io_error(text: &str) -> (r: RemoteScanError)
    ensures
        classifies_read(r, lowered(text@)),
{
    let lower = ascii_lower(text);
    let t = lower.as_str();
    if contains(t, "http 405") || contains(t, "http: 405") {
        RemoteScanError::HttpStatus { stage: "range_read".to_owned(), status: 405 }
    } else if contains(t, "401") || contains(t, "unauthorized") {
        RemoteScanError::Unauthorized
    } else if contains(t, "403") || contains(t, "forbidden") {
        RemoteScanError::Forbidden
    } else if contains(t, "404") || contains(t, "not found") {
        RemoteScanError::NotFound
    } else if contains(t, "429") || contains(t, "rate") || contains(t, "频繁") {
        let wait: Option<u64> = retry_after_ms(t);
        RemoteScanError::RateLimited { retry_after_ms: wait }
    } else if contains(t, "200") && contains(t, "range") {
        RemoteScanError::RangeUnavailable
    } else if contains(t, "timeout") || contains(t, "timed out") || contains(t, "连接") || contains(
        t,
        "network",
    ) || contains(t, "请求失败") {
        RemoteScanError::TransientNetwork("range_read_failed".to_owned())
    } else {
        RemoteScanError::Provider("range_read_failed".to_owned())
    }
}

/// The texts that an error carries.
pub open spec fn carried(e: RemoteScanError) -> Option<Seq<char>> {
    match e {
        RemoteScanError::TransientNetwork(text) => Some(text@),
        RemoteScanError::MalformedResponse(text) => Some(text@),
        RemoteScanError::Io(text) => Some(text@),
        RemoteScanError::Provider(text) => Some(text@),
        RemoteScanError::HttpStatus { stage, status } => Some(stage@),
        _ => None,
    }
}

/// Whatever a provider answers, nothing of its words gets through: an error
/// carries one of five fixed words or none.
pub proof fn law_errors_carry_no_provider_text(e: RemoteScanError, t: Seq<char>)
    requires
        classifies(e, t) || classifies_read(e, t),
    ensures
        carried(e) matches Some(text) ==> text == "downurl"@ || text == "range_read"@ || text
            == "provider_unavailable"@ || text == "provider_error"@ || text == "range_read_failed"@,
{
}

// ------------------------------------------------------------------
// Paths and ids
// ------------------------------------------------------------------

/// The ids under which a provider knows canonical paths; of several for one
/// path the last counts.
pub open spec fn id_of(ids: Seq<(String, String)>, path: Seq<char>) -> Option<Seq<char>>
    decreases ids.len(),
{
    if ids.len() == 0 {
        None
    } else if ids.last().0@ == path {
        Some(ids.last().1@)
    } else {
        id_of(ids.drop_last(), path)
    }
}

/// How a session reaches files.
pub struct SessionRemoteAdapter {
    pub provider: Provider,
    pub root: String,
    pub path_ids: Vec<(String, String)>,
}

/// An entry of a listing as a provider gives it.
pub struct ListedEntry {
    pub name: String,
    pub path: String,
    pub is_dir: bool,
    pub size: u64,
    pub mtime: i64,
    /// What the entry is, by its name.
    pub asset_kind: RemoteAssetKind,
}

/// The canonical path of a listed entry.
pub open spec fn listed_path(opaque: bool, parent: Seq<char>, entry: ListedEntry) -> Seq<char> {
    if opaque {
        canonical_child(parent, entry.name@)
    } else {
        canonical(entry.path@)
    }
}

/// Whether `r` is what a listed entry is to the library. A size or a time of
/// zero is one that the provider does not tell.
pub open spec fn is_entry_of(
    r: RemoteEntry,
    opaque: bool,
    parent: Seq<char>,
    entry: ListedEntry,
) -> bool {
    &&& r.name == entry.name
    &&& r.logical_path@ == listed_path(opaque, parent, entry)
    &&& r.provider_path == Some(entry.path)
    &&& r.is_dir == entry.is_dir
    &&& r.size == (if entry.size != 0 {
        Some(entry.size)
    } else {
        None
    })
    &&& r.mtime == (if entry.mtime != 0 {
        Some(entry.mtime)
    } else {
        None
    })
    &&& r.asset_kind == entry.asset_kind
}

/// The ids after a listing: each entry of an opaque source is known by its
/// id from then on.
pub open spec fn id_after(
    before: Option<Seq<char>>,
    opaque: bool,
    parent: Seq<char>,
    entries: Seq<ListedEntry>,
    path: Seq<char>,
) -> Option<Seq<char>>
    decreases entries.len(),
{
    if !opaque || entries.len() == 0 {
        before
    } else if listed_path(opaque, parent, entries.last()) == path {
        Some(entries.last().path@)
    } else {
        id_after(before, opaque, parent, entries.drop_last(), path)
    }
}

impl SessionRemoteAdapter {
    /// The path or the id by which the provider knows a canonical path. An
    /// opaque source is asked for its root where it has no id for the path.
    pub open spec fn known_as(&self, path: Seq<char>) -> Seq<char> {
        if !self.provider.is_opaque() {
            path
        } else {
            match id_of(self.path_ids@, canonical(path)) {
                Some(id) => id,
                None => self.root@,
            }
        }
    }

    fn find_id(&self, path: &str) -> (r: Option<String>)
        ensures
            opt_text(r) == id_of(self.path_ids@, path@),
    {
        let mut n: usize = self.path_ids.len();
        assert(self.path_ids@.take(n as int) =~= self.path_ids@);
        while n > 0
            invariant
                n <= self.path_ids.len(),
                id_of(self.path_ids@.take(n as int), path@) == id_of(self.path_ids@, path@),
            decreases n,
        {
            assert(self.path_ids@.take(n as int).drop_last() =~= self.path_ids@.take(n - 1));
            assert(self.path_ids@.take(n as int).last() == self.path_ids@[n - 1]);
            if same(self.path_ids[n - 1].0.as_str(), path) {
                return Some(self.path_ids[n - 1].1.clone());
            }
            n = n - 1;
        }
        None
    }

    /// The path or the id by which the provider knows a canonical path.
    pub fn provider_path(&self, path: &str) -> (r: String)
        ensures
            r@ == self.known_as(path@),
    {
        if !self.provider.opaque() {
            return path.to_owned();
        }
        let key = normalize_path(path);
        match self.find_id(key.as_str()) {
            Some(id) => id,
            None => self.root.clone(),
        }
    }

    /// Remembers the id of a path.
    pub fn register_path(&mut self, logical_path: &str, provider_path: &str)
        ensures
            final(self).provider == old(self).provider,
            final(self).root == old(self).root,
            forall|path: Seq<char>| #[trigger]
                id_of(final(self).path_ids@, path) == (if path == canonical(logical_path@) {
                    Some(provider_path@)
                } else {
                    id_of(old(self).path_ids@, path)
                }),
    {
        let key = normalize_path(logical_path);
        let ghost before = self.path_ids@;
        self.path_ids.push((key, provider_path.to_owned()));
        assert(self.path_ids@.drop_last() =~= before);
    }

    /// The path by which an asset is cached: its own where paths are stable,
    /// else the id that its provider gave it, as far as it is known.
    pub fn cache_path(&self, logical_path: &str) -> (r: Option<String>)
        ensures
            opt_text(r) == (if self.provider.is_opaque() {
                id_of(self.path_ids@, canonical(logical_path@))
            } else {
                Some(canonical(logical_path@))
            }),
    {
        let key = normalize_path(logical_path);
        if self.provider.opaque() {
            self.find_id(key.as_str())
        } else {
            Some(key)
        }
    }

    /// Checks that a listing is asked for from its beginning: none of the
    /// providers continues one.
    pub fn check_cursor(cursor: &Option<String>) -> (r: Result<(), RemoteScanError>)
        ensures
            match r {
                Ok(_) => cursor is None,
                Err(e) => cursor is Some && (e matches RemoteScanError::MalformedResponse(code)
                    && code@ == "unexpected_cursor"@),
            },
    {
        match cursor {
            Some(_) => Err(RemoteScanError::MalformedResponse("unexpected_cursor".to_owned())),
            None => Ok(()),
        }
    }

    /// Takes in the listing of a directory.
    pub fn list(&mut self, path: &str, entries: &Vec<ListedEntry>) -> (r: Vec<RemoteEntry>)
        ensures
            final(self).provider == old(self).provider,
            final(self).root == old(self).root,
            r.len() == entries.len(),
            forall|i: int|
                0 <= i < entries.len() ==> is_entry_of(
                    #[trigger] r@[i],
                    old(self).provider.is_opaque(),
                    path@,
                    entries@[i],
                ),
            forall|p: Seq<char>| #[trigger]
                id_of(final(self).path_ids@, p) == id_after(
                    id_of(old(self).path_ids@, p),
                    old(self).provider.is_opaque(),
                    path@,
                    entries@,
                    p,
                ),
    {
        let opaque = self.provider.opaque();
        let mut out: Vec<RemoteEntry> = Vec::new();
        let mut i: usize = 0;
        let ghost first = self.path_ids@;
        while i < entries.len()
            invariant
                i <= entries.len(),
                opaque == self.provider.is_opaque(),
                self.provider == old(self).provider,
                self.root == old(self).root,
                out.len() == i,
                forall|j: int|
                    0 <= j < i ==> is_entry_of(#[trigger] out@[j], opaque, path@, entries@[j]),
                forall|p: Seq<char>| #[trigger]
                    id_of(self.path_ids@, p) == id_after(
                        id_of(first, p),
                        opaque,
                        path@,
                        entries@.take(i as int),
                        p,
                    ),
            decreases entries.len() - i,
        {
            let entry = &entries[i];
            let logical_path = if opaque {
                canonical_child_path(path, entry.name.as_str())
            } else {
                normalize_path(entry.path.as_str())
            };
            let ghost before = self.path_ids@;
            if opaque {
                self.path_ids.push((logical_path.clone(), entry.path.clone()));
                assert(self.path_ids@.drop_last() =~= before);
            }
            proof {
                let now = entries@.take(i + 1);
                assert(now.drop_last() =~= entries@.take(i as int));
                assert(now.last() == *entry);
                assert forall|p: Seq<char>| #[trigger]
                    id_of(self.path_ids@, p) == id_after(id_of(first, p), opaque, path@, now, p) by {
                    assert(id_of(before, p) == id_after(
                        id_of(first, p),
                        opaque,
                        path@,
                        entries@.take(i as int),
                        p,
                    ));
                }
            }
            let size: Option<u64> = if entry.size != 0 {
                Some(entry.size)
            } else {
                None
            };
            let mtime: Option<i64> = if entry.mtime != 0 {
                Some(entry.mtime)
            } else {
                None
            };
            out.push(
                RemoteEntry {
                    name: entry.name.clone(),
                    logical_path,
                    provider_path: Some(entry.path.clone()),
                    is_dir: entry.is_dir,
                    size,
                    mtime,
                    asset_kind: entry.asset_kind,
                },
            );
            i = i + 1;
        }
        assert(entries@.take(i as int) =~= entries@);
        out
    }
}

/// A path that was registered is asked for by its id, whatever else is
/// registered for other paths afterwards.
pub proof fn law_registered_paths_are_known(
    adapter: SessionRemoteAdapter,
    path: Seq<char>,
    id: Seq<char>,
)
    requires
        adapter.provider.is_opaque(),
        id_of(adapter.path_ids@, canonical(path)) == Some(id),
    ensures
        adapter.known_as(path) == id,
{
}

/// Why a source cannot be reached for a scan.
pub open spec fn adapter_refusal<T>(
    sessions: Sessions<RemoteSession<T>>,
    source_type: Seq<char>,
    session: u64,
) -> Option<Seq<char>> {
    if source_type == "smb"@ || source_type == "local"@ {
        Some("local-only source is not eligible for remote scan"@)
    } else {
        match provider_of(sessions, source_type, session) {
            None => Some("unsupported remote source type"@),
            Some(provider) => if is_session(sessions, provider, session) {
                None
            } else {
                Some(provider.missing_session(session as nat))
            },
        }
    }
}

/// The root that is scanned: the one asked for, or that of the session where
/// it is blank or `/` and the session has one of its own.
pub open spec fn adapter_root(
    opaque: bool,
    session_root: Seq<char>,
    root_path: Seq<char>,
) -> Seq<char> {
    if opaque && (is_blank(root_path) || root_path == "/"@) {
        session_root
    } else {
        root_path
    }
}

/// How a scan reaches the files of a source.
pub fn remote_provider_adapter<T>(
    sessions: &Sessions<RemoteSession<T>>,
    source_type: &str,
    session: u64,
    root_path: &str,
) -> (r: Result<SessionRemoteAdapter, String>)
    requires
        sessions.wf(),
    ensures
        match r {
            Ok(adapter) => {
                &&& adapter_refusal(*sessions, source_type@, session) is None
                &&& provider_of(*sessions, source_type@, session) == Some(adapter.provider)
                &&& adapter.root@ == adapter_root(
                    adapter.provider.is_opaque(),
                    sessions.held()[session].root@,
                    root_path@,
                )
                &&& forall|p: Seq<char>| #[trigger]
                    id_of(adapter.path_ids@, p) == (if p == "/"@ {
                        Some(adapter.root@)
                    } else {
                        None
                    })
            },
            Err(text) => adapter_refusal(*sessions, source_type@, session) == Some(text@),
        },
{
    if same(source_type, "smb") || same(source_type, "local") {
        return Err("local-only source is not eligible for remote scan".to_owned());
    }
    let provider = match choose_provider(sessions, source_type, session) {
        Some(provider) => provider,
        None => {
            return Err("unsupported remote source type".to_owned());
        },
    };
    let found = match find_session(sessions, provider, session) {
        Ok(found) => found,
        Err(text) => {
            return Err(text);
        },
    };
    let root = if provider.opaque() && (blank(root_path) || same(root_path, "/")) {
        found.root.clone()
    } else {
        root_path.to_owned()
    };
    let mut path_ids: Vec<(String, String)> = Vec::new();
    let ghost none = path_ids@;
    path_ids.push(("/".to_owned(), root.clone()));
    assert(path_ids@.drop_last() =~= none);
    assert forall|p: Seq<char>| #[trigger]
        id_of(path_ids@, p) == (if p == "/"@ {
            Some(root@)
        } else {
            None
        }) by {
        assert(id_of(none, p) is None);
    }
    Ok(SessionRemoteAdapter { provider, root, path_ids })
}

// ------------------------------------------------------------------
// Folders of images
// ------------------------------------------------------------------

/// The namespace of the pages of a folder of images.
pub fn remote_folder_cache_ns<T>(
    sessions: &Sessions<RemoteSession<T>>,
    source_type: &str,
    session: u64,
    path: &str,
) -> (r: Result<String, String>)
    requires
        sessions.wf(),
    ensures
        match provider_of(*sessions, source_type@, session) {
            None => r matches Err(text) && text@ == "unsupported remote folder source type"@,
            Some(provider) => if is_session(*sessions, provider, session) {
                r matches Ok(ns) && ns@ == remote_namespace(
                    source_type@,
                    sessions.held()[session].origin@,
                    canonical(path@),
                )
            } else {
                r matches Err(text) && text@ == provider.missing_session(session as nat)
            },
        },
{
    let provider = match choose_provider(sessions, source_type, session) {
        Some(provider) => provider,
        None => {
            return Err("unsupported remote folder source type".to_owned());
        },
    };
    match find_session(sessions, provider, session) {
        Ok(found) => {
            let bare = normalize_path(path);
            Ok(cat5(source_type, "|", found.origin.as_str(), "|", bare.as_str()))
        },
        Err(text) => Err(text),
    }
}

/// The directories above the last of some segments, from the root down.
pub open spec fn directories_above(segments: Seq<Seq<char>>) -> Seq<Seq<char>>
    decreases segments.len(),
{
    if segments.len() == 0 {
        Seq::<Seq<char>>::empty()
    } else {
        directories_above(segments.drop_last()).push(directory_at(segments.drop_last()))
    }
}

/// The path that segments lead to.
pub open spec fn directory_at(segments: Seq<Seq<char>>) -> Seq<char>
    decreases segments.len(),
{
    if segments.len() == 0 {
        "/"@
    } else {
        canonical_child(directory_at(segments.drop_last()), segments.last())
    }
}

/// The directories that are listed before a folder is opened, so that every
/// id on the way to it is known: those above it, and the folder itself.
pub open spec fn locator_paths(path: Seq<char>) -> Seq<Seq<char>> {
    let logical = canonical(path);
    if logical == "/"@ {
        seq![logical]
    } else {
        directories_above(pieces(trimmed_start(logical, CharClass::Slash), '/')).push(logical)
    }
}

/// The directories that are listed before a folder is opened.
pub fn prime_remote_folder_locator(path: &str) -> (r: Vec<String>)
    ensures
        texts(r@) == locator_paths(path@),
{
    let logical = normalize_path(path);
    let mut out: Vec<String> = Vec::new();
    assert(texts(out@) =~= Seq::<Seq<char>>::empty());
    if !same(logical.as_str(), "/") {
        let bare = trim_start(logical.as_str(), CharClass::Slash);
        let segments = split(bare.as_str(), '/');
        let ghost all = texts(segments@);
        let mut parent = "/".to_owned();
        let mut i: usize = 0;
        assert(all.take(0) =~= Seq::<Seq<char>>::empty());
        while i < segments.len()
            invariant
                all == texts(segments@),
                i <= segments.len(),
                parent@ == directory_at(all.take(i as int)),
                texts(out@) == directories_above(all.take(i as int)),
            decreases segments.len() - i,
        {
            assert(all.take(i + 1).drop_last() =~= all.take(i as int));
            assert(all.take(i + 1).last() == segments@[i as int]@);
            let next = canonical_child_path(parent.as_str(), segments[i].as_str());
            let ghost before = out@;
            let ghost listed = parent@;
            out.push(parent);
            assert(texts(out@) =~= texts(before).push(listed));
            parent = next;
            i = i + 1;
        }
        assert(all.take(i as int) =~= all);
    }
    let ghost before = out@;
    let ghost last = logical@;
    out.push(logical);
    assert(texts(out@) =~= texts(before).push(last));
    assert(logical@ == "/"@ ==> texts(out@) =~= seq![last]);
    out
}

/// Whether what was published of a folder of images is complete and holds
/// something.
pub open spec fn is_complete(manifest: Result<u64, String>) -> bool {
    manifest matches Ok(entries) && entries > 0
}

/// Whether a folder of images can be opened: what was published of it is
/// complete and holds something.
pub fn remote_image_folder_manifest_complete(manifest: &Result<u64, String>) -> (r: bool)
    ensures
        r == is_complete(*manifest),
{
    match manifest {
        Ok(entries) => *entries > 0,
        Err(_) => false,
    }
}

/// Why a folder of images is not opened, if it is not: its manifest cannot be
/// read or is incomplete, or its source cannot be reached.
pub open spec fn folder_refusal<T>(
    sessions: Sessions<RemoteSession<T>>,
    manifest: Result<u64, String>,
    source_type: Seq<char>,
    session: u64,
) -> Option<Seq<char>> {
    match manifest {
        Err(text) => Some(text@),
        Ok(entries) => if entries == 0 {
            Some("remote image-folder manifest is incomplete"@)
        } else {
            adapter_refusal(sessions, source_type, session)
        },
    }
}

/// What opening a folder of images takes.
pub struct FolderOpening {
    /// How its files are reached.
    pub adapter: SessionRemoteAdapter,
    /// The directories that are listed first.
    pub listed_first: Vec<String>,
    /// The namespace of its pages.
    pub cache_ns: String,
}

/// Plans to open a folder of images by its published manifest.
pub fn open_remote_folder_book<T>(
    sessions: &Sessions<RemoteSession<T>>,
    manifest: &Result<u64, String>,
    source_type: &str,
    session: u64,
    path: &str,
) -> (r: Result<FolderOpening, String>)
    requires
        sessions.wf(),
    ensures
        match r {
            Ok(opening) => {
                &&& folder_refusal(*sessions, *manifest, source_type@, session) is None
                &&& provider_of(*sessions, source_type@, session) == Some(opening.adapter.provider)
                &&& opening.adapter.root@ == adapter_root(
                    opening.adapter.provider.is_opaque(),
                    sessions.held()[session].root@,
                    "/"@,
                )
                &&& forall|p: Seq<char>| #[trigger]
                    id_of(opening.adapter.path_ids@, p) == (if p == "/"@ {
                        Some(opening.adapter.root@)
                    } else {
                        None
                    })
                &&& texts(opening.listed_first@) == locator_paths(path@)
                &&& opening.cache_ns@ == remote_namespace(
                    source_type@,
                    sessions.held()[session].origin@,
                    canonical(path@),
                )
            },
            Err(text) => folder_refusal(*sessions, *manifest, source_type@, session) == Some(text@),
        },
{
    match manifest {
        Err(text) => {
            return Err(text.clone());
        },
        Ok(entries) => if *entries == 0 {
            return Err("remote image-folder manifest is incomplete".to_owned());
        },
    }
    let adapter = match remote_provider_adapter(sessions, source_type, session, "/") {
        Ok(adapter) => adapter,
        Err(text) => {
            return Err(text);
        },
    };
    let listed_first = prime_remote_folder_locator(path);
    match remote_folder_cache_ns(sessions, source_type, session, path) {
        Ok(cache_ns) => Ok(FolderOpening { adapter, listed_first, cache_ns }),
        Err(text) => Err(text),
    }
}

/// A folder of images whose manifest is not complete is never opened,
/// whatever its source and session.
pub proof fn law_incomplete_folders_are_not_opened<T>(
    sessions: Sessions<RemoteSession<T>>,
    manifest: Result<u64, String>,
    source_type: Seq<char>,
    session: u64,
)
    requires
        !is_complete(manifest),
    ensures
        folder_refusal(sessions, manifest, source_type, session) is Some,
        manifest is Ok ==> folder_refusal(sessions, manifest, source_type, session) == Some(
            "remote image-folder manifest is incomplete"@,
        ),
{
}

// ------------------------------------------------------------------
// What providers and sessions promise
// ------------------------------------------------------------------

proof fn lemma_type_names_differ()
    ensures
        "webdav"@ != "sftp"@,
        "webdav"@ != "baidu"@,
        "webdav"@ != "115"@,
        "webdav"@ != "quark"@,
        "sftp"@ != "baidu"@,
        "sftp"@ != "115"@,
        "sftp"@ != "quark"@,
        "baidu"@ != "115"@,
        "baidu"@ != "quark"@,
        "115"@ != "quark"@,
        "local"@ != "smb"@,
        "local"@ != "webdav"@,
        "local"@ != "sftp"@,
        "local"@ != "baidu"@,
        "local"@ != "115"@,
        "local"@ != "quark"@,
        "smb"@ != "webdav"@,
        "smb"@ != "sftp"@,
        "smb"@ != "baidu"@,
        "smb"@ != "115"@,
        "smb"@ != "quark"@,
{
    reveal_strlit("webdav");
    reveal_strlit("sftp");
    reveal_strlit("baidu");
    reveal_strlit("115");
    reveal_strlit("quark");
    reveal_strlit("local");
    reveal_strlit("smb");
    assert("webdav"@.len() == 6 && "sftp"@.len() == 4 && "baidu"@.len() == 5);
    assert("115"@.len() == 3 && "quark"@.len() == 5 && "local"@.len() == 5 && "smb"@.len() == 3);
    assert("baidu"@[0] == 'b' && "quark"@[0] == 'q' && "local"@[0] == 'l');
    assert("115"@[0] == '1' && "smb"@[0] == 's');
}

/// The type of a source stands for its provider; a 115 source for the one
/// with a cookie where such a session is open. No other type can be scanned.
pub proof fn law_types_stand_for_their_providers<T>(
    sessions: Sessions<RemoteSession<T>>,
    kind: Seq<char>,
    id: u64,
)
    ensures
        provider_of(sessions, kind, id) == Some(Provider::WebDav) <==> kind == "webdav"@,
        provider_of(sessions, kind, id) == Some(Provider::Sftp) <==> kind == "sftp"@,
        provider_of(sessions, kind, id) == Some(Provider::Baidu) <==> kind == "baidu"@,
        provider_of(sessions, kind, id) == Some(Provider::Quark) <==> kind == "quark"@,
        provider_of(sessions, kind, id) == Some(Provider::Cloud115Cookie) <==> kind == "115"@
            && sessions.held().dom().contains(id) && sessions.held()[id].provider
            == Provider::Cloud115Cookie,
        provider_of(sessions, kind, id) == Some(Provider::Cloud115) <==> kind == "115"@ && !(
        sessions.held().dom().contains(id) && sessions.held()[id].provider
            == Provider::Cloud115Cookie),
        provider_of(sessions, kind, id) is Some <==> is_remote_type(kind),
        is_remote_type(kind) <==> kind == "webdav"@ || kind == "sftp"@ || kind == "baidu"@ || kind
            == "115"@ || kind == "quark"@,
        provider_of(sessions, kind, id) matches Some(provider) ==> provider.name() == kind,
{
    lemma_type_names_differ();
}

/// Only WebDAV and SFTP know files by their paths; each provider refuses a
/// session that is not there in its own words.
pub proof fn law_providers_have_their_words(provider: Provider, id: nat)
    ensures
        provider.is_opaque() <==> provider == Provider::Baidu || provider == Provider::Cloud115
            || provider == Provider::Cloud115Cookie || provider == Provider::Quark,
        Provider::WebDav.missing_session(id) == "无效的 WebDAV 会话: "@ + decimal(id),
        Provider::Sftp.missing_session(id) == "无效的 SFTP 会话: "@ + decimal(id),
        Provider::Baidu.missing_session(id) == "无效的百度网盘会话: "@ + decimal(id),
        Provider::Cloud115.missing_session(id) == "无效的 115 网盘会话: "@ + decimal(id),
        Provider::Cloud115Cookie.missing_session(id) == "115 Cookie 会话不存在，请重新连接"@,
        Provider::Quark.missing_session(id) == "无效的夸克网盘会话: "@ + decimal(id),
{
}

/// The error of a provider is the first of these that its words speak of: a
/// refused method, a login, a permission, something that is not there, too
/// many requests, the network; what speaks of none is an error of the
/// provider. `t` is its text in lower case.
pub proof fn law_errors_are_told_by_their_words(e: RemoteScanError, t: Seq<char>)
    requires
        classifies(e, t),
    ensures
        ({
            let method = occurs(t, "http 405"@) || occurs(t, "http: 405"@);
            let login = occurs(t, "401"@) || occurs(t, "登录"@) || occurs(t, "token"@) || occurs(
                t,
                "认证"@,
            );
            let allowed = occurs(t, "403"@) || occurs(t, "权限"@) || occurs(t, "forbidden"@);
            let missing = occurs(t, "404"@) || occurs(t, "不存在"@) || occurs(t, "not found"@);
            let often = occurs(t, "429"@) || occurs(t, "频繁"@) || occurs(t, "rate"@);
            let network = occurs(t, "timeout"@) || occurs(t, "timed out"@) || occurs(t, "连接"@)
                || occurs(t, "network"@);
            &&& e is HttpStatus <==> method
            &&& e is Unauthorized <==> login && !method
            &&& e is Forbidden <==> allowed && !login && !method
            &&& e is NotFound <==> missing && !allowed && !login && !method
            &&& e is RateLimited <==> often && !missing && !allowed && !login && !method
            &&& e is TransientNetwork <==> network && !often && !missing && !allowed && !login
                && !method
            &&& e is Provider <==> !network && !often && !missing && !allowed && !login && !method
            &&& e matches RemoteScanError::HttpStatus { stage, status } ==> stage@ == "downurl"@
                && status == 405
            &&& e matches RemoteScanError::RateLimited { retry_after_ms } ==> match retry_after_ms {
                Some(n) => wait_asked(t) == Some(n as nat),
                None => wait_asked(t) is None,
            }
        }),
{
}

/// The error of a read is the first of these that its words speak of: a
/// refused method, a login, a permission, something that is not there, too
/// many requests, a whole answer where a part was asked for, the network;
/// what speaks of none is an error of the provider.
pub proof fn law_read_errors_are_told_by_their_words(e: RemoteScanError, t: Seq<char>)
    requires
        classifies_read(e, t),
    ensures
        ({
            let method = occurs(t, "http 405"@) || occurs(t, "http: 405"@);
            let login = occurs(t, "401"@) || occurs(t, "unauthorized"@);
            let allowed = occurs(t, "403"@) || occurs(t, "forbidden"@);
            let missing = occurs(t, "404"@) || occurs(t, "not found"@);
            let often = occurs(t, "429"@) || occurs(t, "rate"@) || occurs(t, "频繁"@);
            let whole = occurs(t, "200"@) && occurs(t, "range"@);
            let network = occurs(t, "timeout"@) || occurs(t, "timed out"@) || occurs(t, "连接"@)
                || occurs(t, "network"@) || occurs(t, "请求失败"@);
            let sorted = method || login || allowed || missing || often;
            &&& e is HttpStatus <==> method
            &&& e is Unauthorized <==> login && !method
            &&& e is Forbidden <==> allowed && !login && !method
            &&& e is NotFound <==> missing && !allowed && !login && !method
            &&& e is RateLimited <==> often && !missing && !allowed && !login && !method
            &&& e is RangeUnavailable <==> whole && !sorted
            &&& e is TransientNetwork <==> network && !whole && !sorted
            &&& e is Provider <==> !network && !whole && !sorted
            &&& e matches RemoteScanError::HttpStatus { stage, status } ==> stage@ == "range_read"@
                && status == 405
            &&& e matches RemoteScanError::RateLimited { retry_after_ms } ==> match retry_after_ms {
                Some(n) => wait_asked(t) == Some(n as nat),
                None => wait_asked(t) is None,
            }
        }),
{
}

proof fn lemma_leading_digits_of(d: Seq<char>, rest: Seq<char>)
    requires
        all_digits(d),
        rest.len() > 0 ==> !is_digit(rest[0]),
    ensures
        leading_digits(d + rest) == d.len(),
    decreases d.len(),
{
    if d.len() == 0 {
        assert(d + rest =~= rest);
    } else {
        assert(is_digit(d[0]));
        let e = d.drop_first();
        assert(all_digits(e)) by {
            assert forall|i: int| 0 <= i < e.len() implies is_digit(#[trigger] e[i]) by {
                assert(is_digit(d[i + 1]));
            }
        }
        lemma_leading_digits_of(e, rest);
        assert((d + rest).drop_first() =~= e + rest);
        assert((d + rest)[0] == d[0]);
    }
}

/// The number behind a word is the one that stands right behind the first
/// occurrence of it.
pub proof fn law_number_stands_behind_its_word(
    before: Seq<char>,
    word: Seq<char>,
    n: nat,
    rest: Seq<char>,
)
    requires
        n <= u64::MAX,
        rest.len() > 0 ==> !('0' <= rest[0] <= '9'),
        forall|j: int|
            0 <= j < before.len() ==> !#[trigger] stands_at(
                before + word + decimal(n) + rest,
                word,
                j,
            ),
    ensures
        number_behind(before + word + decimal(n) + rest, word) == Some(n),
{
    let d = decimal(n);
    let text = before + word + d + rest;
    let at = before.len() as int;
    assert(text.subrange(at, at + word.len()) =~= word);
    assert(stands_at(text, word, at));
    let first = first_at(text, word);
    assert(stands_at(text, word, first));
    if first < at {
        assert(!stands_at(text, word, first));
    } else if first > at {
        assert(!stands_at(text, word, at));
    }
    let behind = text.skip(at + word.len());
    assert(behind =~= d + rest);
    lemma_decimal_digits(n);
    lemma_leading_digits_of(d, rest);
    assert(behind.take(d.len() as int) =~= d);
    law_decimal_reads_back(n, u64::MAX as nat);
}

/// How long a provider asks to wait stands behind a word in either of two
/// spellings; the one with hyphens counts where both are there.
pub proof fn law_wait_is_asked_in_two_spellings(text: Seq<char>)
    ensures
        number_behind(text, "retry-after-ms="@) is Some ==> wait_asked(text) == number_behind(
            text,
            "retry-after-ms="@,
        ),
        number_behind(text, "retry-after-ms="@) is None ==> wait_asked(text) == number_behind(
            text,
            "retry_after_ms="@,
        ),
        !occurs(text, "retry-after-ms="@) && !occurs(text, "retry_after_ms="@) ==> wait_asked(
            text,
        ) is None,
{
}

/// The id that was told last for a path is the one by which it is known.
pub proof fn law_last_id_counts(ids: Seq<(String, String)>, path: String, id: String, q: Seq<char>)
    ensures
        id_of(Seq::<(String, String)>::empty(), q) is None,
        id_of(ids.push((path, id)), q) == (if path@ == q {
            Some(id@)
        } else {
            id_of(ids, q)
        }),
{
    assert(ids.push((path, id)).drop_last() =~= ids);
}

/// A listed entry is known to the library by its path, or below its parent by
/// its name where the provider tells ids alone; a size or a time of zero is
/// not told.
pub proof fn law_listed_entries_are_taken_in(
    r: RemoteEntry,
    opaque: bool,
    parent: Seq<char>,
    entry: ListedEntry,
)
    requires
        is_entry_of(r, opaque, parent, entry),
    ensures
        opaque ==> r.logical_path@ == canonical_child(parent, entry.name@),
        !opaque ==> r.logical_path@ == canonical(entry.path@),
        r.provider_path == Some(entry.path),
        r.name == entry.name,
        r.is_dir == entry.is_dir,
        r.asset_kind == entry.asset_kind,
        r.size is None <==> entry.size == 0,
        r.size matches Some(n) ==> n == entry.size,
        r.mtime is None <==> entry.mtime == 0,
        r.mtime matches Some(n) ==> n == entry.mtime,
{
}

/// After a listing each entry of a provider that tells ids alone is known by
/// its id, the last of one path by its own; of the others nothing is
/// remembered.
pub proof fn law_listings_tell_ids(
    before: Option<Seq<char>>,
    opaque: bool,
    parent: Seq<char>,
    entries: Seq<ListedEntry>,
    entry: ListedEntry,
    path: Seq<char>,
)
    ensures
        !opaque ==> id_after(before, opaque, parent, entries, path) == before,
        id_after(before, true, parent, Seq::<ListedEntry>::empty(), path) == before,
        id_after(before, true, parent, entries.push(entry), path) == (if canonical_child(
            parent,
            entry.name@,
        ) == path {
            Some(entry.path@)
        } else {
            id_after(before, true, parent, entries, path)
        }),
{
    assert(entries.push(entry).drop_last() =~= entries);
}

/// A provider that knows paths is asked by the path; one that tells ids alone
/// by the id of the path, or for its root where it told none.
pub proof fn law_files_are_asked_for_as_they_are_known(
    adapter: SessionRemoteAdapter,
    path: Seq<char>,
)
    ensures
        adapter.provider == Provider::WebDav || adapter.provider == Provider::Sftp
            ==> adapter.known_as(path) == path,
        adapter.provider != Provider::WebDav && adapter.provider != Provider::Sftp && id_of(
            adapter.path_ids@,
            canonical(path),
        ) is Some ==> Some(adapter.known_as(path)) == id_of(adapter.path_ids@, canonical(path)),
        adapter.provider != Provider::WebDav && adapter.provider != Provider::Sftp && id_of(
            adapter.path_ids@,
            canonical(path),
        ) is None ==> adapter.known_as(path) == adapter.root@,
{
}

/// A source is reached for a scan where it is remote and a session of its
/// provider is open; a directory of this or a neighbouring machine never is.
pub proof fn law_scans_need_a_session<T>(
    sessions: Sessions<RemoteSession<T>>,
    kind: Seq<char>,
    session: u64,
)
    ensures
        adapter_refusal(sessions, kind, session) is None <==> is_remote_type(kind)
            && sessions.held().dom().contains(session) && Some(sessions.held()[session].provider)
            == provider_of(sessions, kind, session),
        kind == "smb"@ || kind == "local"@ ==> adapter_refusal(sessions, kind, session) == Some(
            "local-only source is not eligible for remote scan"@,
        ),
        !is_remote_type(kind) && kind != "smb"@ && kind != "local"@ ==> adapter_refusal(
            sessions,
            kind,
            session,
        ) == Some("unsupported remote source type"@),
{
    lemma_type_names_differ();
}

/// A scan begins at the root that was asked for; where none was, or only the
/// topmost, a provider that tells ids alone begins at that of the session.
pub proof fn law_scans_begin_at_their_root(
    opaque: bool,
    session_root: Seq<char>,
    root_path: Seq<char>,
)
    ensures
        !opaque ==> adapter_root(opaque, session_root, root_path) == root_path,
        opaque && !is_blank(root_path) && root_path != "/"@ ==> adapter_root(
            opaque,
            session_root,
            root_path,
        ) == root_path,
        opaque && (is_blank(root_path) || root_path == "/"@) ==> adapter_root(
            opaque,
            session_root,
            root_path,
        ) == session_root,
{
}

/// Before a folder is opened the directories on the way to it are listed,
/// from the topmost down, each the child of the one before, and the folder
/// itself last.
pub proof fn law_folders_are_reached_from_the_top(segments: Seq<Seq<char>>, k: int)
    ensures
        directories_above(segments).len() == segments.len(),
        segments.len() > 0 ==> directories_above(segments)[0] == "/"@,
        0 <= k < segments.len() - 1 ==> directories_above(segments)[k + 1] == canonical_child(
            directories_above(segments)[k],
            segments[k],
        ),
    decreases segments.len(),
{
    if segments.len() > 0 {
        let less = segments.drop_last();
        law_folders_are_reached_from_the_top(less, k);
        if 0 <= k && k == segments.len() - 2 {
            let above = directories_above(segments);
            assert(above[k + 1] == directory_at(less));
            assert(above[k] == directories_above(less)[k]);
            assert(directories_above(less)[k] == directory_at(less.drop_last()));
            assert(less.last() == segments[k]);
        } else if 0 <= k < segments.len() - 2 {
            assert(directories_above(segments)[k + 1] == directories_above(less)[k + 1]);
            assert(directories_above(segments)[k] == directories_above(less)[k]);
        }
    }
}

/// The first directory that is listed is the topmost one, the last the folder
/// itself.
pub proof fn law_folders_are_listed_last(path: Seq<char>)
    ensures
        locator_paths(path).len() > 0,
        locator_paths(path).last() == canonical(path),
        locator_paths(path)[0] == "/"@ || locator_paths(path).len() == 1,
{
    let logical = canonical(path);
    if logical != "/"@ {
        law_folders_are_reached_from_the_top(
            pieces(trimmed_start(logical, CharClass::Slash), '/'),
            0,
        );
    }
}

/// A folder of images is opened where what was published of it could be read
/// and holds something, and its source is reached; else the first of these
/// that fails is the reason.
pub proof fn law_folders_are_opened_when_published<T>(
    sessions: Sessions<RemoteSession<T>>,
    manifest: Result<u64, String>,
    kind: Seq<char>,
    session: u64,
)
    ensures
        folder_refusal(sessions, manifest, kind, session) is None <==> (manifest matches Ok(n) && n
            > 0) && adapter_refusal(sessions, kind, session) is None,
        manifest matches Err(text) ==> folder_refusal(sessions, manifest, kind, session) == Some(
            text@,
        ),
        manifest matches Ok(n) ==> (n == 0 ==> folder_refusal(sessions, manifest, kind, session)
            == Some("remote image-folder manifest is incomplete"@)),
        manifest matches Ok(n) ==> (n > 0 ==> folder_refusal(sessions, manifest, kind, session)
            == adapter_refusal(sessions, kind, session)),
        is_complete(manifest) <==> (manifest matches Ok(n) && n > 0),
{
}

} // verus!
