//! Failures of remote work: the codes that may be stored, and what follows
//! for the cover job that failed.
//!
//! A stored code is always one of a fixed list. What a provider or a decoder
//! said can decide which code is stored; it is never part of one.

use vstd::arithmetic::power2::pow2;
use vstd::prelude::*;
use vstd::string::*;

use crate::remote_scan::model::{CoverJobState, RemoteScanError};
use crate::text::{ascii_lower, contains, lowered, occurs, same};

verus! {

pub const COVER_REASON_SIZE_MISSING: &'static str = "cover_size_missing";

pub const COVER_REASON_BYTES_LIMIT: &'static str = "cover_bytes_limit";

pub const COVER_REASON_PDF_BYTES_LIMIT: &'static str = "cover_pdf_bytes_limit";

pub const COVER_REASON_PARTIAL_DECODE: &'static str = "cover_partial_decode_failed";

pub const COVER_REASON_DECODE: &'static str = "cover_decode_failed";

pub const COVER_REASON_PIXELS: &'static str = "cover_pixels_too_large";

pub const COVER_REASON_NATIVE_LIB_MISSING: &'static str = "cover_native_lib_missing";

pub const COVER_REASON_DOCUMENT_OPEN: &'static str = "cover_document_open_failed";

pub const COVER_REASON_PAGE_RENDER: &'static str = "cover_page_render_failed";

pub const COVER_REASON_READ_BUDGET: &'static str = "cover_read_budget_exceeded";

/// How long a failed cover that can be repaired waits before it is tried
/// again: six hours.
pub const LONG_RETRY_DELAY_MS: i64 = 21_600_000;

// ------------------------------------------------------------------
// The fixed lists
// ------------------------------------------------------------------

/// The reasons for which a cover can be refused.
pub open spec fn is_cover_reason(code: Seq<char>) -> bool {
    ||| code == COVER_REASON_SIZE_MISSING@
    ||| code == COVER_REASON_BYTES_LIMIT@
    ||| code == COVER_REASON_PDF_BYTES_LIMIT@
    ||| code == COVER_REASON_PARTIAL_DECODE@
    ||| code == COVER_REASON_DECODE@
    ||| code == COVER_REASON_PIXELS@
    ||| code == COVER_REASON_NATIVE_LIB_MISSING@
    ||| code == COVER_REASON_DOCUMENT_OPEN@
    ||| code == COVER_REASON_PAGE_RENDER@
    ||| code == COVER_REASON_READ_BUDGET@
}

/// The reasons that a repaired installation or a raised limit removes.
pub open spec fn is_retryable_reason(code: Seq<char>) -> bool {
    ||| code == COVER_REASON_NATIVE_LIB_MISSING@
    ||| code == COVER_REASON_BYTES_LIMIT@
    ||| code == COVER_REASON_PDF_BYTES_LIMIT@
    ||| code == COVER_REASON_PIXELS@
    ||| code == COVER_REASON_PARTIAL_DECODE@
    ||| code == COVER_REASON_READ_BUDGET@
}

/// The provider codes that a new session or a lifted limit removes.
pub open spec fn is_retryable_provider_code(code: Seq<char>) -> bool {
    ||| code == "provider:rateLimited"@
    ||| code == "provider:timeout"@
    ||| code == "provider:unauthorized"@
    ||| code == "provider:forbidden"@
}

/// The codes that a provider's own message can be sorted under.
pub open spec fn is_provider_code(code: Seq<char>) -> bool {
    ||| is_retryable_provider_code(code)
    ||| code == "provider:notFound"@
    ||| code == "provider:decodeFailed"@
    ||| code == "provider:noCover"@
    ||| code == "provider:other"@
}

/// Every code that may be stored or shown.
pub open spec fn is_safe_code(code: Seq<char>) -> bool {
    ||| is_cover_reason(code)
    ||| is_provider_code(code)
    ||| code == "malformed"@
    ||| code == "authExpired"@
    ||| code == "forbidden"@
    ||| code == "notFound"@
    ||| code == "rateLimited"@
    ||| code == "transient"@
    ||| code == "rangeUnavailable"@
    ||| code == "cancelled"@
    ||| code == "unsupported"@
    ||| code == "storage"@
    ||| code == "httpStatus"@
}

/// The reasons for which a cover can be refused, in a fixed order.
pub fn cover_reasons() -> (r: Vec<&'static str>)
    ensures
        r.len() == 10,
        forall|i: int| 0 <= i < 10 ==> is_cover_reason(#[trigger] r@[i]@),
        forall|code: Seq<char>| #[trigger]
            is_cover_reason(code) ==> exists|i: int| 0 <= i < 10 && #[trigger] r@[i]@ == code,
{
    let r: Vec<&'static str> = vec![
        COVER_REASON_SIZE_MISSING,
        COVER_REASON_BYTES_LIMIT,
        COVER_REASON_PDF_BYTES_LIMIT,
        COVER_REASON_PARTIAL_DECODE,
        COVER_REASON_DECODE,
        COVER_REASON_PIXELS,
        COVER_REASON_NATIVE_LIB_MISSING,
        COVER_REASON_DOCUMENT_OPEN,
        COVER_REASON_PAGE_RENDER,
        COVER_REASON_READ_BUDGET,
    ];
    assert(r@[0]@ == COVER_REASON_SIZE_MISSING@ && r@[1]@ == COVER_REASON_BYTES_LIMIT@ && r@[2]@
        == COVER_REASON_PDF_BYTES_LIMIT@ && r@[3]@ == COVER_REASON_PARTIAL_DECODE@ && r@[4]@
        == COVER_REASON_DECODE@);
    assert(r@[5]@ == COVER_REASON_PIXELS@ && r@[6]@ == COVER_REASON_NATIVE_LIB_MISSING@ && r@[7]@
        == COVER_REASON_DOCUMENT_OPEN@ && r@[8]@ == COVER_REASON_PAGE_RENDER@ && r@[9]@
        == COVER_REASON_READ_BUDGET@);
    r
}

/// The reasons that a repaired installation or a raised limit removes.
pub fn cover_retryable_reasons() -> (r: Vec<&'static str>)
    ensures
        r.len() == 6,
        forall|i: int| 0 <= i < 6 ==> is_retryable_reason(#[trigger] r@[i]@),
        forall|code: Seq<char>| #[trigger]
            is_retryable_reason(code) ==> exists|i: int| 0 <= i < 6 && #[trigger] r@[i]@ == code,
{
    let r: Vec<&'static str> = vec![
        COVER_REASON_NATIVE_LIB_MISSING,
        COVER_REASON_BYTES_LIMIT,
        COVER_REASON_PDF_BYTES_LIMIT,
        COVER_REASON_PIXELS,
        COVER_REASON_PARTIAL_DECODE,
        COVER_REASON_READ_BUDGET,
    ];
    assert(r@[0]@ == COVER_REASON_NATIVE_LIB_MISSING@ && r@[1]@ == COVER_REASON_BYTES_LIMIT@
        && r@[2]@ == COVER_REASON_PDF_BYTES_LIMIT@);
    assert(r@[3]@ == COVER_REASON_PIXELS@ && r@[4]@ == COVER_REASON_PARTIAL_DECODE@ && r@[5]@
        == COVER_REASON_READ_BUDGET@);
    r
}

/// Whether a repaired installation or a raised limit removes the reason.
pub fn retryable_reason(code: &str) -> (r: bool)
    ensures
        r == is_retryable_reason(code@),
{
    same(code, COVER_REASON_NATIVE_LIB_MISSING) || same(code, COVER_REASON_BYTES_LIMIT) || same(
        code,
        COVER_REASON_PDF_BYTES_LIMIT,
    ) || same(code, COVER_REASON_PIXELS) || same(code, COVER_REASON_PARTIAL_DECODE) || same(
        code,
        COVER_REASON_READ_BUDGET,
    )
}

/// Whether a new session or a lifted limit removes what the code names.
pub fn retryable_provider_code(code: &str) -> (r: bool)
    ensures
        r == is_retryable_provider_code(code@),
{
    same(code, "provider:rateLimited") || same(code, "provider:timeout") || same(
        code,
        "provider:unauthorized",
    ) || same(code, "provider:forbidden")
}

// ------------------------------------------------------------------
// From an error to a code
// ------------------------------------------------------------------

/// The error that names one of the cover reasons.
pub fn cover_reason(code: &'static str) -> (r: RemoteScanError)
    ensures
        r is MalformedResponse,
        r->MalformedResponse_0@ == code@,
{
    RemoteScanError::MalformedResponse(code.to_owned())
}

/// The code of a malformed response: the reason itself where it is one of
/// the cover reasons, `malformed` otherwise.
pub open spec fn malformed_code(code: Seq<char>) -> Seq<char> {
    if is_cover_reason(code) {
        code
    } else {
        "malformed"@
    }
}

/// The code of a malformed response.
pub fn safe_malformed_code(code: &str) -> (r: &'static str)
    ensures
        r@ == malformed_code(code@),
{
    if same(code, COVER_REASON_SIZE_MISSING) {
        COVER_REASON_SIZE_MISSING
    } else if same(code, COVER_REASON_BYTES_LIMIT) {
        COVER_REASON_BYTES_LIMIT
    } else if same(code, COVER_REASON_PDF_BYTES_LIMIT) {
        COVER_REASON_PDF_BYTES_LIMIT
    } else if same(code, COVER_REASON_PARTIAL_DECODE) {
        COVER_REASON_PARTIAL_DECODE
    } else if same(code, COVER_REASON_DECODE) {
        COVER_REASON_DECODE
    } else if same(code, COVER_REASON_PIXELS) {
        COVER_REASON_PIXELS
    } else if same(code, COVER_REASON_NATIVE_LIB_MISSING) {
        COVER_REASON_NATIVE_LIB_MISSING
    } else if same(code, COVER_REASON_DOCUMENT_OPEN) {
        COVER_REASON_DOCUMENT_OPEN
    } else if same(code, COVER_REASON_PAGE_RENDER) {
        COVER_REASON_PAGE_RENDER
    } else if same(code, COVER_REASON_READ_BUDGET) {
        COVER_REASON_READ_BUDGET
    } else {
        "malformed"
    }
}

/// The code under which a provider's message is sorted. The first group of
/// words of which one occurs in the message, ASCII case ignored, decides.
pub open spec fn provider_code(message: Seq<char>) -> Seq<char> {
    let t = lowered(message);
    if occurs(t, "404"@) || occurs(t, "not found"@) || occurs(t, "不存在"@) {
        "provider:notFound"@
    } else if occurs(t, "403"@) || occurs(t, "forbidden"@) || occurs(t, "denied"@) {
        "provider:forbidden"@
    } else if occurs(t, "401"@) || occurs(t, "unauthor"@) || occurs(t, "登录"@) {
        "provider:unauthorized"@
    } else if occurs(t, "429"@) || occurs(t, "rate"@) || occurs(t, "频繁"@) {
        "provider:rateLimited"@
    } else if occurs(t, "timeout"@) || occurs(t, "timed out"@) || occurs(t, "超时"@) {
        "provider:timeout"@
    } else if occurs(t, "decode"@) || occurs(t, "解码"@) || occurs(t, "invalid image"@) {
        "provider:decodeFailed"@
    } else if occurs(t, "cover"@) || occurs(t, "封面"@) {
        "provider:noCover"@
    } else {
        "provider:other"@
    }
}

/// The code under which a provider's message is sorted.
pub fn provider_failure_code(message: &str) -> (r: &'static str)
    ensures
        r@ == provider_code(message@),
{
    let lower = ascii_lower(message);
    let t = lower.as_str();
    if contains(t, "404") || contains(t, "not found") || contains(t, "不存在") {
        "provider:notFound"
    } else if contains(t, "403") || contains(t, "forbidden") || contains(t, "denied") {
        "provider:forbidden"
    } else if contains(t, "401") || contains(t, "unauthor") || contains(t, "登录") {
        "provider:unauthorized"
    } else if contains(t, "429") || contains(t, "rate") || contains(t, "频繁") {
        "provider:rateLimited"
    } else if contains(t, "timeout") || contains(t, "timed out") || contains(t, "超时") {
        "provider:timeout"
    } else if contains(t, "decode") || contains(t, "解码") || contains(t, "invalid image") {
        "provider:decodeFailed"
    } else if contains(t, "cover") || contains(t, "封面") {
        "provider:noCover"
    } else {
        "provider:other"
    }
}

/// The code that is stored for an error.
pub open spec fn stored_code(error: RemoteScanError) -> Seq<char> {
    match error {
        RemoteScanError::Unauthorized => "authExpired"@,
        RemoteScanError::Forbidden => "forbidden"@,
        RemoteScanError::NotFound => "notFound"@,
        RemoteScanError::RateLimited { .. } => "rateLimited"@,
        RemoteScanError::TransientNetwork(_) => "transient"@,
        RemoteScanError::RangeUnavailable => "rangeUnavailable"@,
        RemoteScanError::MalformedResponse(code) => malformed_code(code@),
        RemoteScanError::Cancelled => "cancelled"@,
        RemoteScanError::Unsupported => "unsupported"@,
        RemoteScanError::Io(_) => "storage"@,
        RemoteScanError::Provider(message) => provider_code(message@),
        RemoteScanError::HttpStatus { .. } => "httpStatus"@,
    }
}

/// The code that is stored for an error.
pub fn error_code(error: &RemoteScanError) -> (r: &'static str)
    ensures
        r@ == stored_code(*error),
        is_safe_code(r@),
{
    match error {
        RemoteScanError::Unauthorized => "authExpired",
        RemoteScanError::Forbidden => "forbidden",
        RemoteScanError::NotFound => "notFound",
        RemoteScanError::RateLimited { .. } => "rateLimited",
        RemoteScanError::TransientNetwork(_) => "transient",
        RemoteScanError::RangeUnavailable => "rangeUnavailable",
        RemoteScanError::MalformedResponse(code) => safe_malformed_code(code.as_str()),
        RemoteScanError::Cancelled => "cancelled",
        RemoteScanError::Unsupported => "unsupported",
        RemoteScanError::Io(_) => "storage",
        RemoteScanError::Provider(message) => provider_failure_code(message.as_str()),
        RemoteScanError::HttpStatus { .. } => "httpStatus",
    }
}

/// Why a document did not open: the reading budget was spent, the native
/// library is missing, or the document itself is at fault.
pub open spec fn open_reason(detail: Seq<char>) -> Seq<char> {
    let t = lowered(detail);
    if occurs(t, "cover-read-budget"@) {
        COVER_REASON_READ_BUDGET@
    } else if occurs(t, "pdfium"@) {
        COVER_REASON_NATIVE_LIB_MISSING@
    } else {
        COVER_REASON_DOCUMENT_OPEN@
    }
}

/// Why a document did not open, from the whole text of the error.
pub fn cover_open_reason(detail: &str) -> (r: RemoteScanError)
    ensures
        r is MalformedResponse,
        r->MalformedResponse_0@ == open_reason(detail@),
{
    let lower = ascii_lower(detail);
    let t = lower.as_str();
    if contains(t, "cover-read-budget") {
        cover_reason(COVER_REASON_READ_BUDGET)
    } else if contains(t, "pdfium") {
        cover_reason(COVER_REASON_NATIVE_LIB_MISSING)
    } else {
        cover_reason(COVER_REASON_DOCUMENT_OPEN)
    }
}

/// Why a page could not be had: the reading budget was spent, or rendering
/// failed.
pub open spec fn page_reason(detail: Seq<char>) -> Seq<char> {
    if occurs(lowered(detail), "cover-read-budget"@) {
        COVER_REASON_READ_BUDGET@
    } else {
        COVER_REASON_PAGE_RENDER@
    }
}

/// Why a page could not be had, from the whole text of the error.
pub fn cover_page_reason(detail: &str) -> (r: RemoteScanError)
    ensures
        r is MalformedResponse,
        r->MalformedResponse_0@ == page_reason(detail@),
{
    let lower = ascii_lower(detail);
    if contains(lower.as_str(), "cover-read-budget") {
        cover_reason(COVER_REASON_READ_BUDGET)
    } else {
        cover_reason(COVER_REASON_PAGE_RENDER)
    }
}

// ------------------------------------------------------------------
// What follows for the job
// ------------------------------------------------------------------

/// Whether a failed cover gets one more try after the long delay.
pub open spec fn earns_long_retry(error: RemoteScanError) -> bool {
    match error {
        RemoteScanError::TransientNetwork(_) => true,
        RemoteScanError::RateLimited { .. } => true,
        RemoteScanError::Provider(message) => is_retryable_provider_code(provider_code(message@)),
        RemoteScanError::MalformedResponse(code) => is_retryable_reason(code@),
        _ => false,
    }
}

/// Whether a failed cover gets one more try after the long delay.
pub fn long_retry_is_retryable(error: &RemoteScanError) -> (r: bool)
    ensures
        r == earns_long_retry(*error),
{
    match error {
        RemoteScanError::TransientNetwork(_) => true,
        RemoteScanError::RateLimited { .. } => true,
        RemoteScanError::Provider(message) => retryable_provider_code(
            provider_failure_code(message.as_str()),
        ),
        RemoteScanError::MalformedResponse(code) => retryable_reason(code.as_str()),
        _ => false,
    }
}

/// Whether a larger window of the file could repair the failure: only where
/// the bytes at hand ended too early.
pub open spec fn worth_escalating(error: RemoteScanError) -> bool {
    error matches RemoteScanError::MalformedResponse(code) && code@ == COVER_REASON_PARTIAL_DECODE@
}

/// Whether a larger window of the file could repair the failure.
pub fn cover_error_worth_escalating(error: &RemoteScanError) -> (r: bool)
    ensures
        r == worth_escalating(*error),
{
    match error {
        RemoteScanError::MalformedResponse(code) => same(
            code.as_str(),
            COVER_REASON_PARTIAL_DECODE,
        ),
        _ => false,
    }
}

/// The state, the code and the delay that follow from a failed attempt.
pub struct CoverFailureDecision {
    pub state: CoverJobState,
    pub error_code: Option<String>,
    pub retry_after_ms: Option<u64>,
}

/// The exponent of the short backoff: the attempt, kept within 0 and 10.
pub open spec fn backoff_exponent(attempt: int) -> nat {
    if attempt < 0 {
        0
    } else if attempt > 10 {
        10
    } else {
        attempt as nat
    }
}

/// The short backoff: one second, doubled with each attempt.
pub open spec fn backoff_ms(attempt: int) -> nat {
    pow2(backoff_exponent(attempt)) * 1000
}

/// Whether the error is one of those that pass by themselves.
pub open spec fn is_passing(error: RemoteScanError) -> bool {
    error is TransientNetwork || error is RateLimited
}

/// The state that follows from a failed attempt.
pub open spec fn state_after_failure(error: RemoteScanError, attempt: int) -> CoverJobState {
    match error {
        RemoteScanError::RangeUnavailable => CoverJobState::Unsupported,
        RemoteScanError::Unsupported => CoverJobState::Unsupported,
        RemoteScanError::Unauthorized => CoverJobState::Blocked,
        RemoteScanError::Forbidden => CoverJobState::Blocked,
        RemoteScanError::Cancelled => CoverJobState::Cancelled,
        _ => if is_passing(error) && attempt < 3 {
            CoverJobState::RetryWait
        } else {
            CoverJobState::Failed
        },
    }
}

/// The delay that follows from a failed attempt: the one that the server
/// asked for, else the short backoff; none where the job does not wait.
pub open spec fn delay_after_failure(error: RemoteScanError, attempt: int) -> Option<u64> {
    if state_after_failure(error, attempt) is RetryWait {
        match error {
            RemoteScanError::RateLimited { retry_after_ms: Some(ms) } => Some(ms),
            _ => Some(backoff_ms(attempt) as u64),
        }
    } else {
        None
    }
}

/// What follows for a cover job from a failed attempt.
pub fn cover_job_failure_decision(error: &RemoteScanError, attempt: i64) -> (r:
    CoverFailureDecision)
    ensures
        r.state == state_after_failure(*error, attempt as int),
        r.error_code is Some,
        r.error_code->0@ == stored_code(*error),
        r.retry_after_ms == delay_after_failure(*error, attempt as int),
{
    let code = error_code(error).to_owned();
    match error {
        RemoteScanError::RangeUnavailable | RemoteScanError::Unsupported => CoverFailureDecision {
            state: CoverJobState::Unsupported,
            error_code: Some(code),
            retry_after_ms: None,
        },
        RemoteScanError::Unauthorized | RemoteScanError::Forbidden => CoverFailureDecision {
            state: CoverJobState::Blocked,
            error_code: Some(code),
            retry_after_ms: None,
        },
        RemoteScanError::TransientNetwork(_) => if attempt < 3 {
            CoverFailureDecision {
                state: CoverJobState::RetryWait,
                error_code: Some(code),
                retry_after_ms: Some(short_backoff(attempt)),
            }
        } else {
            CoverFailureDecision {
                state: CoverJobState::Failed,
                error_code: Some(code),
                retry_after_ms: None,
            }
        },
        RemoteScanError::RateLimited { retry_after_ms } => if attempt < 3 {
            let delay: u64 = match retry_after_ms {
                Some(ms) => *ms,
                None => short_backoff(attempt),
            };
            CoverFailureDecision {
                state: CoverJobState::RetryWait,
                error_code: Some(code),
                retry_after_ms: Some(delay),
            }
        } else {
            CoverFailureDecision {
                state: CoverJobState::Failed,
                error_code: Some(code),
                retry_after_ms: None,
            }
        },
        RemoteScanError::Cancelled => CoverFailureDecision {
            state: CoverJobState::Cancelled,
            error_code: Some("cancelled".to_owned()),
            retry_after_ms: None,
        },
        _ => CoverFailureDecision {
            state: CoverJobState::Failed,
            error_code: Some(code),
            retry_after_ms: None,
        },
    }
}

fn short_backoff(attempt: i64) -> (r: u64)
    requires
        attempt < 3,
    ensures
        r == backoff_ms(attempt as int),
{
    proof {
        vstd::arithmetic::power2::lemma2_to64();
    }
    if attempt <= 0 {
        1000
    } else if attempt == 1 {
        2000
    } else {
        4000
    }
}

/// When a failed job may be tried once more: the long delay from now for a
/// failure that can be repaired, never for the others.
pub open spec fn long_retry_at(
    error: RemoteScanError,
    state: CoverJobState,
    now_ms: int,
) -> Option<int> {
    if state is Failed && earns_long_retry(error) {
        Some(
            if now_ms + LONG_RETRY_DELAY_MS > i64::MAX {
                i64::MAX as int
            } else {
                now_ms + LONG_RETRY_DELAY_MS
            },
        )
    } else {
        None
    }
}

/// When a failed job may be tried once more.
pub fn long_retry_not_before(error: &RemoteScanError, state: CoverJobState, now_ms: i64) -> (r:
    Option<i64>)
    ensures
        match r {
            Some(at) => long_retry_at(*error, state, now_ms as int) == Some(at as int),
            None => long_retry_at(*error, state, now_ms as int) is None,
        },
{
    if state == CoverJobState::Failed && long_retry_is_retryable(error) {
        if now_ms > i64::MAX - LONG_RETRY_DELAY_MS {
            Some(i64::MAX)
        } else {
            Some(now_ms + LONG_RETRY_DELAY_MS)
        }
    } else {
        None
    }
}

// ------------------------------------------------------------------
// Laws
// ------------------------------------------------------------------

/// Whatever an error carries, the code stored for it is on the fixed list.
pub proof fn law_stored_codes_are_safe(error: RemoteScanError)
    ensures
        is_safe_code(stored_code(error)),
{
}

/// Each reason that earns a long retry is one of the cover reasons, and each
/// provider code that does is one that a message can be sorted under.
pub proof fn law_retryable_codes_are_known(code: Seq<char>)
    ensures
        is_retryable_reason(code) ==> is_cover_reason(code),
        is_retryable_provider_code(code) ==> is_provider_code(code),
{
}

/// From the third attempt on no failure waits: neither the backoff nor what
/// the server asked for extends the short budget.
pub proof fn law_third_attempt_is_terminal(error: RemoteScanError, attempt: int)
    requires
        attempt >= 3,
    ensures
        !(state_after_failure(error, attempt) is RetryWait),
        delay_after_failure(error, attempt) is None,
{
}

/// Only failures that pass by themselves wait for another attempt; a refused
/// login or permission never does.
pub proof fn law_only_passing_failures_wait(error: RemoteScanError, attempt: int)
    ensures
        state_after_failure(error, attempt) is RetryWait <==> is_passing(error) && attempt < 3,
        delay_after_failure(error, attempt) is Some <==> is_passing(error) && attempt < 3,
{
}

/// Without a delay asked for by the server, a job waits at most four seconds:
/// attempts end before the backoff grows further.
pub proof fn law_backoff_is_bounded(error: RemoteScanError, attempt: int)
    requires
        !(error matches RemoteScanError::RateLimited { retry_after_ms: Some(_) }),
    ensures
        delay_after_failure(error, attempt) matches Some(ms) ==> 1000 <= ms <= 4000,
        backoff_ms(attempt) <= 1024 * 1000,
{
    vstd::arithmetic::power2::lemma2_to64();
}

/// A transient failure and a rate limit without a given delay wait equally
/// long.
pub proof fn law_backoff_is_shared(detail: String, attempt: int)
    ensures
        delay_after_failure(RemoteScanError::TransientNetwork(detail), attempt)
            == delay_after_failure(RemoteScanError::RateLimited { retry_after_ms: None }, attempt),
{
}

/// A job that has exhausted its short budget on a passing failure is tried
/// once more after the long delay.
pub proof fn law_exhausted_short_budget_earns_long_retry(
    error: RemoteScanError,
    attempt: int,
    now_ms: int,
)
    requires
        is_passing(error),
        attempt >= 3,
    ensures
        long_retry_at(error, state_after_failure(error, attempt), now_ms) is Some,
{
}

/// The code of each error that carries no words of others is fixed; a
/// malformed response is stored under its reason where that is one of the
/// ten for which a cover is refused, and as malformed otherwise.
pub proof fn law_errors_have_their_codes(error: RemoteScanError)
    ensures
        error is Unauthorized ==> stored_code(error) == "authExpired"@,
        error is Forbidden ==> stored_code(error) == "forbidden"@,
        error is NotFound ==> stored_code(error) == "notFound"@,
        error is RateLimited ==> stored_code(error) == "rateLimited"@,
        error is TransientNetwork ==> stored_code(error) == "transient"@,
        error is RangeUnavailable ==> stored_code(error) == "rangeUnavailable"@,
        error is Cancelled ==> stored_code(error) == "cancelled"@,
        error is Unsupported ==> stored_code(error) == "unsupported"@,
        error is Io ==> stored_code(error) == "storage"@,
        error is HttpStatus ==> stored_code(error) == "httpStatus"@,
        error matches RemoteScanError::MalformedResponse(code) ==> stored_code(error) == (
        if is_cover_reason(code@) {
            code@
        } else {
            "malformed"@
        }),
        error matches RemoteScanError::Provider(message) ==> is_provider_code(stored_code(error)),
{
}

/// A cover is refused for one of ten reasons. Six of them go away with a
/// repaired installation, a raised limit or another try; a missing size, a
/// broken image, a broken document and a page that does not render stay.
pub proof fn law_reasons_to_refuse_a_cover(code: Seq<char>)
    ensures
        is_retryable_reason(code) <==> code == "cover_native_lib_missing"@ || code
            == "cover_bytes_limit"@ || code == "cover_pdf_bytes_limit"@ || code
            == "cover_pixels_too_large"@ || code == "cover_partial_decode_failed"@ || code
            == "cover_read_budget_exceeded"@,
        is_cover_reason(code) <==> is_retryable_reason(code) || code == "cover_size_missing"@
            || code == "cover_decode_failed"@ || code == "cover_document_open_failed"@ || code
            == "cover_page_render_failed"@,
{
}

proof fn lemma_provider_codes_differ()
    ensures
        "provider:notFound"@ != "provider:forbidden"@,
        "provider:notFound"@ != "provider:unauthorized"@,
        "provider:notFound"@ != "provider:rateLimited"@,
        "provider:notFound"@ != "provider:timeout"@,
        "provider:notFound"@ != "provider:decodeFailed"@,
        "provider:notFound"@ != "provider:noCover"@,
        "provider:notFound"@ != "provider:other"@,
        "provider:forbidden"@ != "provider:unauthorized"@,
        "provider:forbidden"@ != "provider:rateLimited"@,
        "provider:forbidden"@ != "provider:timeout"@,
        "provider:forbidden"@ != "provider:decodeFailed"@,
        "provider:forbidden"@ != "provider:noCover"@,
        "provider:forbidden"@ != "provider:other"@,
        "provider:unauthorized"@ != "provider:rateLimited"@,
        "provider:unauthorized"@ != "provider:timeout"@,
        "provider:unauthorized"@ != "provider:decodeFailed"@,
        "provider:unauthorized"@ != "provider:noCover"@,
        "provider:unauthorized"@ != "provider:other"@,
        "provider:rateLimited"@ != "provider:timeout"@,
        "provider:rateLimited"@ != "provider:decodeFailed"@,
        "provider:rateLimited"@ != "provider:noCover"@,
        "provider:rateLimited"@ != "provider:other"@,
        "provider:timeout"@ != "provider:decodeFailed"@,
        "provider:timeout"@ != "provider:noCover"@,
        "provider:timeout"@ != "provider:other"@,
        "provider:decodeFailed"@ != "provider:noCover"@,
        "provider:decodeFailed"@ != "provider:other"@,
        "provider:noCover"@ != "provider:other"@,
{
    reveal_strlit("provider:notFound");
    reveal_strlit("provider:forbidden");
    reveal_strlit("provider:unauthorized");
    reveal_strlit("provider:rateLimited");
    reveal_strlit("provider:timeout");
    reveal_strlit("provider:decodeFailed");
    reveal_strlit("provider:noCover");
    reveal_strlit("provider:other");
    assert("provider:notFound"@[9] == 'n' && "provider:noCover"@[9] == 'n');
    assert("provider:notFound"@.len() == 17 && "provider:noCover"@.len() == 16);
    assert("provider:forbidden"@[9] == 'f' && "provider:unauthorized"@[9] == 'u');
    assert("provider:rateLimited"@[9] == 'r' && "provider:timeout"@[9] == 't');
    assert("provider:decodeFailed"@[9] == 'd' && "provider:other"@[9] == 'o');
}

/// What a provider says is sorted by the first of these that it speaks of, in
/// any ASCII case: something that is not there, something that is forbidden,
/// a login, too many requests, a wait that was too long, an image that does
/// not decode, a cover. What speaks of none is other.
pub proof fn law_messages_are_sorted_by_their_words(message: Seq<char>)
    ensures
        ({
            let t = lowered(message);
            let missing = occurs(t, "404"@) || occurs(t, "not found"@) || occurs(t, "不存在"@);
            let forbidden = occurs(t, "403"@) || occurs(t, "forbidden"@) || occurs(t, "denied"@);
            let login = occurs(t, "401"@) || occurs(t, "unauthor"@) || occurs(t, "登录"@);
            let often = occurs(t, "429"@) || occurs(t, "rate"@) || occurs(t, "频繁"@);
            let late = occurs(t, "timeout"@) || occurs(t, "timed out"@) || occurs(t, "超时"@);
            let broken = occurs(t, "decode"@) || occurs(t, "解码"@) || occurs(t, "invalid image"@);
            let cover = occurs(t, "cover"@) || occurs(t, "封面"@);
            let code = provider_code(message);
            &&& code == "provider:notFound"@ <==> missing
            &&& code == "provider:forbidden"@ <==> forbidden && !missing
            &&& code == "provider:unauthorized"@ <==> login && !missing && !forbidden
            &&& code == "provider:rateLimited"@ <==> often && !missing && !forbidden && !login
            &&& code == "provider:timeout"@ <==> late && !missing && !forbidden && !login && !often
            &&& code == "provider:decodeFailed"@ <==> broken && !missing && !forbidden && !login
                && !often && !late
            &&& code == "provider:noCover"@ <==> cover && !missing && !forbidden && !login && !often
                && !late && !broken
            &&& code == "provider:other"@ <==> !missing && !forbidden && !login && !often && !late
                && !broken && !cover
        }),
{
    lemma_provider_codes_differ();
}

/// How a provider writes its letters does not decide.
pub proof fn law_case_of_messages_does_not_count(a: Seq<char>, b: Seq<char>)
    requires
        lowered(a) == lowered(b),
    ensures
        provider_code(a) == provider_code(b),
        open_reason(a) == open_reason(b),
        page_reason(a) == page_reason(b),
{
}

/// A document whose reading was cut off by the budget, and a page likewise,
/// are refused for that; a document that the native library was missing for,
/// and nothing else, is refused for that; all others are at fault themselves.
pub proof fn law_refused_documents_tell_why(detail: Seq<char>)
    ensures
        open_reason(detail) == "cover_read_budget_exceeded"@ <==> occurs(
            lowered(detail),
            "cover-read-budget"@,
        ),
        open_reason(detail) == "cover_native_lib_missing"@ <==> occurs(lowered(detail), "pdfium"@)
            && !occurs(lowered(detail), "cover-read-budget"@),
        open_reason(detail) == "cover_document_open_failed"@ <==> !occurs(
            lowered(detail),
            "pdfium"@,
        ) && !occurs(lowered(detail), "cover-read-budget"@),
        page_reason(detail) == "cover_read_budget_exceeded"@ <==> occurs(
            lowered(detail),
            "cover-read-budget"@,
        ),
        page_reason(detail) == "cover_page_render_failed"@ <==> !occurs(
            lowered(detail),
            "cover-read-budget"@,
        ),
        is_cover_reason(open_reason(detail)),
        is_cover_reason(page_reason(detail)),
{
    reveal_strlit("cover_read_budget_exceeded");
    reveal_strlit("cover_native_lib_missing");
    reveal_strlit("cover_document_open_failed");
    reveal_strlit("cover_page_render_failed");
    assert("cover_read_budget_exceeded"@[6] == 'r' && "cover_native_lib_missing"@[6] == 'n');
    assert("cover_document_open_failed"@[6] == 'd' && "cover_page_render_failed"@[6] == 'p');
}

/// One more try after the long delay is earned by the network, by too many
/// requests, by what a provider says of limits, waits and logins, and by the
/// reasons that go away; by nothing else.
pub proof fn law_long_retries_are_earned(error: RemoteScanError)
    ensures
        earns_long_retry(error) <==> match error {
            RemoteScanError::TransientNetwork(_) => true,
            RemoteScanError::RateLimited { .. } => true,
            RemoteScanError::Provider(message) => stored_code(error) == "provider:rateLimited"@
                || stored_code(error) == "provider:timeout"@ || stored_code(error)
                == "provider:unauthorized"@ || stored_code(error) == "provider:forbidden"@,
            RemoteScanError::MalformedResponse(code) => code@ == "cover_native_lib_missing"@
                || code@ == "cover_bytes_limit"@ || code@ == "cover_pdf_bytes_limit"@ || code@
                == "cover_pixels_too_large"@ || code@ == "cover_partial_decode_failed"@ || code@
                == "cover_read_budget_exceeded"@,
            _ => false,
        },
        worth_escalating(error) <==> (error matches RemoteScanError::MalformedResponse(code)
            && code@ == "cover_partial_decode_failed"@),
        worth_escalating(error) ==> earns_long_retry(error),
{
}

/// A refused login or permission blocks a cover, a provider without parts of
/// files or without the operation makes it unsupported, a cancelled one stays
/// so; a failure of the network or too many requests waits for its first
/// three attempts, and every other failure is final.
pub proof fn law_failures_leave_their_state(error: RemoteScanError, attempt: int)
    ensures
        state_after_failure(error, attempt) is Unsupported <==> error is RangeUnavailable
            || error is Unsupported,
        state_after_failure(error, attempt) is Blocked <==> error is Unauthorized
            || error is Forbidden,
        state_after_failure(error, attempt) is Cancelled <==> error is Cancelled,
        state_after_failure(error, attempt) is RetryWait <==> attempt < 3 && (
        error is TransientNetwork || error is RateLimited),
        state_after_failure(error, attempt) is Failed <==> error is NotFound
            || error is MalformedResponse || error is Io || error is Provider
            || error is HttpStatus || (attempt >= 3 && (error is TransientNetwork
            || error is RateLimited)),
{
}

/// A job that waits does so for as long as the server asked for; where it did
/// not, one second after the first attempt and twice as long after each
/// further one.
pub proof fn law_waits_are_as_asked_or_doubled(error: RemoteScanError, attempt: int)
    requires
        attempt < 3,
    ensures
        error matches RemoteScanError::RateLimited { retry_after_ms: Some(ms) }
            ==> delay_after_failure(error, attempt) == Some(ms),
        (error is TransientNetwork || error == (RemoteScanError::RateLimited { retry_after_ms: None }))
            ==> delay_after_failure(error, attempt) == Some(
            if attempt <= 0 {
                1000u64
            } else if attempt == 1 {
                2000u64
            } else {
                4000u64
            },
        ),
{
    vstd::arithmetic::power2::lemma2_to64();
}

/// The long delay is six hours from now, or as late as can be told, and only
/// a job that has failed for a reason that earns it gets it.
pub proof fn law_long_retry_is_six_hours_later(
    error: RemoteScanError,
    state: CoverJobState,
    now_ms: int,
)
    ensures
        long_retry_at(error, state, now_ms) is Some <==> state is Failed && earns_long_retry(error),
        long_retry_at(error, state, now_ms) matches Some(at) ==> at == (if now_ms + 6 * 60 * 60
            * 1000 <= i64::MAX {
            now_ms + 6 * 60 * 60 * 1000
        } else {
            i64::MAX as int
        }),
{
}

} // verus!
