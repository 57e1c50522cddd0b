//! The worker that drains the queue of covers of one source, and the events
//! that wake it.

use vstd::prelude::*;
use vstd::string::*;

use crate::number::{dec_u64, decimal, is_digit, lemma_decimal_digits, lemma_decimal_injective};
use crate::remote_scan::failure::{
    cover_job_failure_decision, delay_after_failure, is_safe_code, long_retry_at,
    long_retry_not_before, state_after_failure, stored_code, law_stored_codes_are_safe,
};
use crate::remote_scan::fetch::{
    cover_quality_profile, parse_cover_page, parse_cover_profile, profile_size, quality_profile,
    selected_page, REMOTE_COVER_HEIGHT, REMOTE_COVER_WIDTH,
};
use crate::remote_scan::model::{CoverJobState, RemoteScanError};
use crate::text::{
    blank, cat3, is_blank, list_has, listed, pieces, same, stripped, trim, CharClass,
};

verus! {

/// A background cover yields while a page was read within this time.
pub const COVER_BACKGROUND_YIELD_IDLE_MS: i64 = 20_000;

/// How long a background cover that has yielded waits.
pub const COVER_BACKGROUND_YIELD_SLEEP_MS: u64 = 2_000;

/// The longest sleep of the worker.
pub const COVER_WORKER_MAX_SLEEP_MS: u64 = 30_000;

/// How long a claimed job stays leased: ten minutes.
pub const COVER_LEASE_MS: i64 = 600_000;

// ------------------------------------------------------------------
// Routes
// ------------------------------------------------------------------

/// Where the bytes of an asset are.
pub struct CoverRoute {
    pub logical_path: String,
    pub provider_id: String,
    pub provider_file_id: Option<String>,
}

/// The route of an asset: that of the preview, which may be newer, else the
/// stored one.
pub fn cover_route_for_job(preview: Option<CoverRoute>, stored: Option<CoverRoute>) -> (r: Option<
    CoverRoute,
>)
    ensures
        r == (if preview is Some {
            preview
        } else {
            stored
        }),
{
    match preview {
        Some(route) => Some(route),
        None => stored,
    }
}

/// The kind of provider that a route is followed with: its own, or that of
/// the source where it is not known.
pub open spec fn route_type(provider_id: Seq<char>, source_type: Seq<char>) -> Seq<char> {
    if provider_id == "unknown"@ {
        source_type
    } else {
        provider_id
    }
}

/// The account that a provider's budget is kept for: a credential reference,
/// else the client id, else the source itself. No secret is used.
pub open spec fn account_identity(
    credential_ref: Option<String>,
    client_id: Option<String>,
    source_id: Seq<char>,
) -> Seq<char> {
    if credential_ref matches Some(c) && c@.len() > 0 {
        (credential_ref->0)@
    } else if client_id matches Some(c) && c@.len() > 0 {
        (client_id->0)@
    } else {
        source_id
    }
}

/// The account that a provider's budget is kept for.
pub fn budget_identity(
    credential_ref: Option<String>,
    client_id: Option<String>,
    source_id: &str,
) -> (r: String)
    ensures
        r@ == account_identity(credential_ref, client_id, source_id@),
{
    match credential_ref {
        Some(c) => {
            if !c.as_str().is_empty() {
                return c;
            }
        },
        None => {},
    }
    match client_id {
        Some(c) => {
            if !c.as_str().is_empty() {
                return c;
            }
        },
        None => {},
    }
    source_id.to_owned()
}

// ------------------------------------------------------------------
// One worker
// ------------------------------------------------------------------

/// The name under which a worker leases its jobs.
pub fn worker_owner(source_id: &str, session: u64) -> (r: String)
    ensures
        r@ == "cover:"@ + source_id@ + ":"@ + decimal(session as nat),
{
    let number = dec_u64(session);
    let mut s = cat3("cover:", source_id, ":");
    s.append(number.as_str());
    s
}

/// What has happened to a worker.
pub enum WorkerEvent {
    /// The setting was read, before anything is claimed.
    Setting { fetch_enabled: bool },
    /// The queue could not be asked.
    ClaimFailed,
    /// No job is due; the earliest waiting one is due at `next_retry_at`.
    NothingDue { next_retry_at: Option<i64>, now_ms: i64 },
    /// A job is leased; `idle_ms` is the time since a page was last read.
    Claimed { demand_kind: String, idle_ms: Option<i64> },
    /// The asset of the leased job has no route.
    NoRoute,
    /// The asset of the leased job has a route.
    Routed { provider_id: String },
    /// The budget of the account allows nothing before `deadline`.
    BudgetExhausted { deadline: i64, now_ms: i64 },
    /// The budget of the account allows a request.
    BudgetReserved { provider_id: String, source_type: String },
    /// The session is no longer good.
    AdapterFailed,
    /// The provider can be asked.
    AdapterReady { profile: String, selection: String },
    /// The cover was fetched.
    Fetched { profile: String, selection: String },
    /// The cover was written to the cache, or was not.
    Cached { stored: bool },
    /// The job was marked ready, or was not.
    MarkedReady { accepted: bool },
    /// The cover could not be fetched.
    FetchFailed { error: RemoteScanError, attempt: i64, now_ms: i64 },
}

/// What a worker does next.
pub enum WorkerAction {
    /// End.
    Exit,
    /// Begin again with the setting.
    Again,
    /// Sleep, then begin again.
    Sleep { ms: u64 },
    /// Ask the queue for a job, leased for this long.
    Claim { lease_ms: i64 },
    /// Give the lease back, sleep, then begin again.
    ReleaseAndSleep { ms: u64 },
    /// Look up the route of the asset.
    LookupRoute,
    /// Ask the budget of the account.
    ReserveBudget,
    /// Open the session for this kind of provider.
    OpenAdapter { source_type: String },
    /// Fetch the cover.
    Fetch { width: u32, height: u32, page: u32 },
    /// Write the cover to the cache, also under its path where `by_path`.
    Store { by_path: bool },
    /// Mark the job ready.
    MarkReady,
    /// Mark the job, then begin again.
    Mark { state: CoverJobState, code: &'static str },
    /// Mark the job, then end.
    MarkAndExit { state: CoverJobState, code: &'static str },
    /// Let the job wait, then begin again.
    RetryWait { delay_ms: Option<u64>, error_code: Option<String> },
    /// Record the failure, with the time of another try, then begin again.
    RecordFailure { state: CoverJobState, error_code: Option<String>, not_before: Option<i64> },
}

/// `n` kept within `low` and `high`.
pub open spec fn clamped(n: int, low: int, high: int) -> int {
    if n < low {
        low
    } else if n > high {
        high
    } else {
        n
    }
}

/// The time until a deadline, in 64 bits.
pub open spec fn time_left(deadline: int, now: int) -> int {
    clamped(deadline - now, i64::MIN as int, i64::MAX as int)
}

/// Whether a fetched cover is also kept under its path: only one of the
/// default size and selection.
pub open spec fn kept_by_path(profile: Seq<char>, selection: Seq<char>) -> bool {
    profile_size(profile) == (REMOTE_COVER_WIDTH as nat, REMOTE_COVER_HEIGHT as nat) && selection
        == "default"@
}

/// Whether a job is leased when the event happens.
pub open spec fn holds_job(event: WorkerEvent) -> bool {
    !(event is Setting || event is ClaimFailed || event is NothingDue)
}

/// Whether `action` is what a worker does on `event`.
pub open spec fn follows(event: WorkerEvent, action: WorkerAction) -> bool {
    match event {
        WorkerEvent::Setting { fetch_enabled } => if fetch_enabled {
            action == (WorkerAction::Claim { lease_ms: COVER_LEASE_MS })
        } else {
            action is Exit
        },
        WorkerEvent::ClaimFailed => action is Exit,
        WorkerEvent::NothingDue { next_retry_at, now_ms } => match next_retry_at {
            Some(at) => if at > now_ms {
                action matches WorkerAction::Sleep { ms } && ms == clamped(
                    at - now_ms,
                    0,
                    COVER_WORKER_MAX_SLEEP_MS as int,
                )
            } else {
                action is Exit
            },
            None => action is Exit,
        },
        WorkerEvent::Claimed { demand_kind, idle_ms } => if demand_kind@ == "background"@
            && idle_ms is Some && idle_ms->0 < COVER_BACKGROUND_YIELD_IDLE_MS {
            action == (WorkerAction::ReleaseAndSleep { ms: COVER_BACKGROUND_YIELD_SLEEP_MS })
        } else {
            action is LookupRoute
        },
        WorkerEvent::NoRoute => action matches WorkerAction::Mark { state, code } && state is Failed
            && code@ == "route_missing"@,
        WorkerEvent::Routed { .. } => action is ReserveBudget,
        WorkerEvent::BudgetExhausted { deadline, now_ms } => {
            action matches WorkerAction::ReleaseAndSleep { ms } && ms == clamped(
                time_left(deadline as int, now_ms as int),
                1,
                COVER_WORKER_MAX_SLEEP_MS as int,
            )
        },
        WorkerEvent::BudgetReserved { provider_id, source_type } => {
            action matches WorkerAction::OpenAdapter { source_type: opened } && opened@
                == route_type(provider_id@, source_type@)
        },
        WorkerEvent::AdapterFailed => action matches WorkerAction::MarkAndExit { state, code }
            && state is Blocked && code@ == "authExpired"@,
        WorkerEvent::AdapterReady { profile, selection } => {
            action matches WorkerAction::Fetch { width, height, page } && width == profile_size(
                profile@,
            ).0 && height == profile_size(profile@).1 && page == selected_page(
                pieces(selection@, '|'),
            )
        },
        WorkerEvent::Fetched { profile, selection } => action == (WorkerAction::Store {
            by_path: kept_by_path(profile@, selection@),
        }),
        WorkerEvent::Cached { stored } => if stored {
            action is MarkReady
        } else {
            action matches WorkerAction::Mark { state, code } && state is Failed && code@
                == "coverStorage"@
        },
        WorkerEvent::MarkedReady { accepted } => if accepted {
            action is Again
        } else {
            action matches WorkerAction::Mark { state, code } && state is Failed && code@
                == "coverStorage"@
        },
        WorkerEvent::FetchFailed { error, attempt, now_ms } => {
            let state = state_after_failure(error, attempt as int);
            if state is RetryWait {
                action matches WorkerAction::RetryWait { delay_ms, error_code } && delay_ms
                    == delay_after_failure(error, attempt as int) && error_code is Some && (error_code->0)@
                    == stored_code(error)
            } else {
                action matches WorkerAction::RecordFailure { state: recorded, error_code, not_before }
                    && recorded == state && error_code is Some && (error_code->0)@ == stored_code(error)
                    && match not_before {
                    Some(at) => long_retry_at(error, state, now_ms as int) == Some(at as int),
                    None => long_retry_at(error, state, now_ms as int) is None,
                }
            }
        },
    }
}

/// What a worker does on an event.
pub fn cover_worker_step(event: WorkerEvent) -> (action: WorkerAction)
    ensures
        follows(event, action),
{
    match event {
        WorkerEvent::Setting { fetch_enabled } => if fetch_enabled {
            WorkerAction::Claim { lease_ms: COVER_LEASE_MS }
        } else {
            WorkerAction::Exit
        },
        WorkerEvent::ClaimFailed => WorkerAction::Exit,
        WorkerEvent::NothingDue { next_retry_at, now_ms } => match next_retry_at {
            Some(at) => if at > now_ms {
                let left: i128 = at as i128 - now_ms as i128;
                let ms: u64 = if left > 30_000 {
                    COVER_WORKER_MAX_SLEEP_MS
                } else {
                    left as u64
                };
                WorkerAction::Sleep { ms }
            } else {
                WorkerAction::Exit
            },
            None => WorkerAction::Exit,
        },
        WorkerEvent::Claimed { demand_kind, idle_ms } => {
            let recent = match idle_ms {
                Some(idle) => idle < COVER_BACKGROUND_YIELD_IDLE_MS,
                None => false,
            };
            if same(demand_kind.as_str(), "background") && recent {
                WorkerAction::ReleaseAndSleep { ms: COVER_BACKGROUND_YIELD_SLEEP_MS }
            } else {
                WorkerAction::LookupRoute
            }
        },
        WorkerEvent::NoRoute => WorkerAction::Mark {
            state: CoverJobState::Failed,
            code: "route_missing",
        },
        WorkerEvent::Routed { .. } => WorkerAction::ReserveBudget,
        WorkerEvent::BudgetExhausted { deadline, now_ms } => {
            let left: i128 = deadline as i128 - now_ms as i128;
            let ms: u64 = if left < 1 {
                1
            } else if left > 30_000 {
                COVER_WORKER_MAX_SLEEP_MS
            } else {
                left as u64
            };
            WorkerAction::ReleaseAndSleep { ms }
        },
        WorkerEvent::BudgetReserved { provider_id, source_type } => {
            if same(provider_id.as_str(), "unknown") {
                WorkerAction::OpenAdapter { source_type }
            } else {
                WorkerAction::OpenAdapter { source_type: provider_id }
            }
        },
        WorkerEvent::AdapterFailed => WorkerAction::MarkAndExit {
            state: CoverJobState::Blocked,
            code: "authExpired",
        },
        WorkerEvent::AdapterReady { profile, selection } => {
            let (width, height) = parse_cover_profile(profile.as_str());
            let page: u32 = parse_cover_page(selection.as_str());
            WorkerAction::Fetch { width, height, page }
        },
        WorkerEvent::Fetched { profile, selection } => {
            let (width, height) = parse_cover_profile(profile.as_str());
            let by_path = width == REMOTE_COVER_WIDTH && height == REMOTE_COVER_HEIGHT && same(
                selection.as_str(),
                "default",
            );
            WorkerAction::Store { by_path }
        },
        WorkerEvent::Cached { stored } => if stored {
            WorkerAction::MarkReady
        } else {
            WorkerAction::Mark { state: CoverJobState::Failed, code: "coverStorage" }
        },
        WorkerEvent::MarkedReady { accepted } => if accepted {
            WorkerAction::Again
        } else {
            WorkerAction::Mark { state: CoverJobState::Failed, code: "coverStorage" }
        },
        WorkerEvent::FetchFailed { error, attempt, now_ms } => {
            let decision = cover_job_failure_decision(&error, attempt);
            if decision.state == CoverJobState::RetryWait {
                WorkerAction::RetryWait {
                    delay_ms: decision.retry_after_ms,
                    error_code: decision.error_code,
                }
            } else {
                let not_before = long_retry_not_before(&error, decision.state, now_ms);
                WorkerAction::RecordFailure {
                    state: decision.state,
                    error_code: decision.error_code,
                    not_before,
                }
            }
        },
    }
}

/// A worker that holds a job never just ends or sleeps: the job is passed
/// on, given back or marked.
pub proof fn law_leased_job_is_never_dropped(event: WorkerEvent, action: WorkerAction)
    requires
        follows(event, action),
        holds_job(event),
    ensures
        !(action is Exit),
        !(action is Sleep),
        action is Again ==> event is MarkedReady,
{
}

/// While fetching is switched off no worker claims anything.
pub proof fn law_switched_off_claims_nothing(action: WorkerAction)
    requires
        follows(WorkerEvent::Setting { fetch_enabled: false }, action),
    ensures
        action is Exit,
{
}

/// No sleep of a worker is longer than the longest one.
pub proof fn law_worker_sleeps_are_bounded(event: WorkerEvent, action: WorkerAction)
    requires
        follows(event, action),
    ensures
        action matches WorkerAction::Sleep { ms } ==> 0 < ms <= COVER_WORKER_MAX_SLEEP_MS,
        action matches WorkerAction::ReleaseAndSleep { ms } ==> 0 < ms <= COVER_WORKER_MAX_SLEEP_MS,
{
}

/// What a worker stores after a failed fetch is a safe code.
pub proof fn law_worker_stores_safe_codes(event: WorkerEvent, action: WorkerAction)
    requires
        follows(event, action),
    ensures
        action matches WorkerAction::RetryWait { error_code, .. } ==> error_code is Some && is_safe_code(
            (error_code->0)@,
        ),
        action matches WorkerAction::RecordFailure { error_code, .. } ==> error_code is Some && is_safe_code(
            (error_code->0)@,
        ),
{
    if let WorkerEvent::FetchFailed { error, attempt, now_ms } = event {
        law_stored_codes_are_safe(error);
    }
}

// ------------------------------------------------------------------
// The running workers
// ------------------------------------------------------------------

/// The key of a worker: one for each source and session.
pub open spec fn worker_key(source_id: Seq<char>, session: nat) -> Seq<char> {
    source_id + ":"@ + decimal(session)
}

/// The workers that run, by their keys.
pub struct CoverWorkers {
    pub keys: Vec<String>,
}

impl CoverWorkers {
    /// No worker is listed twice.
    pub open spec fn wf(&self) -> bool {
        forall|i: int, j: int|
            0 <= i < j < self.keys@.len() ==> #[trigger] self.keys@[i]@ != #[trigger] self.keys@[j]@
    }

    /// Whether a worker with this key runs.
    pub open spec fn runs(&self, key: Seq<char>) -> bool {
        listed(self.keys@, key)
    }

    /// No worker runs.
    pub fn new() -> (r: CoverWorkers)
        ensures
            r.wf(),
            r.keys@.len() == 0,
    {
        CoverWorkers { keys: Vec::new() }
    }

    /// Asks for a worker. A key is handed back where one is to be started:
    /// there is a session and a source, and no such worker runs.
    pub fn wake_remote_cover_worker(&mut self, source_id: &str, session: u64) -> (r: Option<String>)
        requires
            old(self).wf(),
        ensures
            final(self).wf(),
            r is Some <==> session != 0 && !is_blank(source_id@) && !old(self).runs(
                worker_key(source_id@, session as nat),
            ),
            r matches Some(key) ==> key@ == worker_key(source_id@, session as nat) && final(self).keys@ == old(self).keys@.push(key),
            r is None ==> final(self).keys@ == old(self).keys@,
    {
        if session == 0 || blank(source_id) {
            return None;
        }
        let number = dec_u64(session);
        let key = cat3(source_id, ":", number.as_str());
        if list_has(&self.keys, key.as_str()) {
            return None;
        }
        let ghost before = self.keys@;
        self.keys.push(key.clone());
        proof {
            assert forall|i: int, j: int| 0 <= i < j < self.keys@.len() implies #[trigger] self.keys@[i]@
                != #[trigger] self.keys@[j]@ by {
                if j == before.len() {
                    assert(before[i]@ != key@);
                }
            }
        }
        Some(key)
    }

    /// Takes note that a worker has ended.
    pub fn finished(&mut self, key: &str)
        requires
            old(self).wf(),
        ensures
            final(self).wf(),
            !final(self).runs(key@),
            forall|other: Seq<char>|
                other != key@ ==> #[trigger] final(self).runs(other) == old(self).runs(other),
    {
        let mut i: usize = 0;
        while i < self.keys.len()
            invariant
                i <= self.keys.len(),
                self.keys@ == old(self).keys@,
                old(self).wf(),
                forall|j: int| 0 <= j < i ==> (#[trigger] self.keys@[j])@ != key@,
            decreases self.keys.len() - i,
        {
            if same(self.keys[i].as_str(), key) {
                let ghost before = self.keys@;
                self.keys.remove(i);
                proof {
                    let after = self.keys@;
                    assert forall|a: int, b: int| 0 <= a < b < after.len() implies #[trigger] after[a]@
                        != #[trigger] after[b]@ by {
                        let a0 = if a < i { a } else { a + 1 };
                        let b0 = if b < i { b } else { b + 1 };
                        assert(after[a] == before[a0] && after[b] == before[b0]);
                    }
                    assert forall|a: int| 0 <= a < after.len() implies #[trigger] after[a]@
                        != key@ by {
                        let a0 = if a < i { a } else { a + 1 };
                        assert(after[a] == before[a0]);
                        if a0 > i {
                            assert(before[i as int]@ != before[a0]@);
                        }
                    }
                    assert forall|other: Seq<char>| other != key@ implies #[trigger] self.runs(other)
                        == old(self).runs(other) by {
                        if old(self).runs(other) {
                            let a0 = choose|a0: int| 0 <= a0 < before.len() && #[trigger] before[a0]@ == other;
                            let a = if a0 < i { a0 } else { a0 - 1 };
                            assert(after[a] == before[a0]);
                        }
                        if self.runs(other) {
                            let a = choose|a: int| 0 <= a < after.len() && #[trigger] after[a]@ == other;
                            let a0 = if a < i { a } else { a + 1 };
                            assert(after[a] == before[a0]);
                        }
                    }
                }
                return;
            }
            i = i + 1;
        }
    }
}

/// The request for a worker that a source-level wake amounts to: none
/// without a source, while fetching is off, or without a session.
pub fn wake_cover_worker_for_source(
    source_id: &str,
    fetch_enabled: bool,
    session: Option<u64>,
) -> (r: Option<(String, u64)>)
    ensures
        r is Some <==> !is_blank(source_id@) && fetch_enabled && session is Some,
        r matches Some((id, token)) ==> id@ == stripped(source_id@) && Some(token) == session,
{
    let id = trim(source_id, CharClass::White);
    if id.as_str().is_empty() || !fetch_enabled {
        return None;
    }
    match session {
        Some(token) => Some((id, token)),
        None => None,
    }
}

/// Workers of different sources or sessions have different keys, so that a
/// session that winds down never stands in the way of a new one.
pub proof fn law_worker_keys_differ(a: Seq<char>, m: nat, b: Seq<char>, n: nat)
    requires
        worker_key(a, m) == worker_key(b, n),
    ensures
        a == b,
        m == n,
{
    reveal_strlit(":");
    lemma_decimal_digits(m);
    lemma_decimal_digits(n);
    let x = worker_key(a, m);
    let y = worker_key(b, n);
    assert(":"@.len() == 1);
    assert(x.len() == a.len() + 1 + decimal(m).len());
    assert(y.len() == b.len() + 1 + decimal(n).len());
    assert(x[a.len() as int] == ':');
    assert(y[b.len() as int] == ':');
    if a.len() < b.len() {
        let i = b.len() - a.len() - 1;
        assert(x[b.len() as int] == decimal(m)[i]);
        assert(is_digit(decimal(m)[i]));
    } else if b.len() < a.len() {
        let i = a.len() - b.len() - 1;
        assert(y[a.len() as int] == decimal(n)[i]);
        assert(is_digit(decimal(n)[i]));
    }
    assert(x.take(a.len() as int) =~= a);
    assert(y.take(b.len() as int) =~= b);
    assert(x.skip(a.len() as int + 1) =~= decimal(m));
    assert(y.skip(b.len() as int + 1) =~= decimal(n));
    lemma_decimal_injective(m, n);
}

// ------------------------------------------------------------------
// A session becomes ready
// ------------------------------------------------------------------

/// What a reconciliation has done.
#[derive(Debug)]
pub struct RemoteCoverReconcileDto {
    pub binding_available: bool,
    pub compensation_promoted: u32,
    pub blocker_cleared: u32,
    pub jobs_created: u32,
    pub claimable: bool,
    pub truncated: bool,
}

impl Default for RemoteCoverReconcileDto {
    fn default() -> (r: RemoteCoverReconcileDto)
        ensures
            r == (RemoteCoverReconcileDto {
                binding_available: false,
                compensation_promoted: 0,
                blocker_cleared: 0,
                jobs_created: 0,
                claimable: false,
                truncated: false,
            }),
    {
        RemoteCoverReconcileDto {
            binding_available: false,
            compensation_promoted: 0,
            blocker_cleared: 0,
            jobs_created: 0,
            claimable: false,
            truncated: false,
        }
    }
}

/// Checks the source and the session of a notification.
pub fn check_session_ready(source_id: &str, session: u64) -> (r: Result<String, String>)
    ensures
        match r {
            Ok(id) => id@ == stripped(source_id@) && id@.len() > 0 && session != 0,
            Err(text) => if is_blank(source_id@) {
                text@ == "书源无效"@
            } else {
                session == 0 && text@ == "登录状态已失效"@
            },
        },
{
    let id = trim(source_id, CharClass::White);
    if id.as_str().is_empty() {
        return Err("书源无效".to_owned());
    }
    if session == 0 {
        return Err("登录状态已失效".to_owned());
    }
    Ok(id)
}

/// The stored form of the session of a known source.
pub fn session_token(known: bool, session: u64) -> (r: Result<i64, String>)
    ensures
        match r {
            Ok(token) => known && token == session,
            Err(text) => if !known {
                text@ == "书源不存在"@
            } else {
                session > i64::MAX && text@ == "登录状态已失效"@
            },
        },
{
    if !known {
        return Err("书源不存在".to_owned());
    }
    if session > 0x7fff_ffff_ffff_ffff {
        return Err("登录状态已失效".to_owned());
    }
    Ok(session as i64)
}

/// What the queue reports of repaired failures.
pub struct CompensationReport {
    pub compensation_promoted: usize,
    pub blocker_cleared: usize,
    pub truncated: bool,
    pub claimable_work: bool,
}

/// What the queue reports of missing covers.
pub struct GapReport {
    pub jobs_created: usize,
    pub truncated: bool,
}

/// How many jobs may still be created after the repaired failures.
pub fn remaining_jobs(max_jobs: usize, compensation: &CompensationReport) -> (r: usize)
    requires
        compensation.compensation_promoted + compensation.blocker_cleared <= usize::MAX,
    ensures
        r == (if max_jobs >= compensation.compensation_promoted + compensation.blocker_cleared {
            max_jobs - (compensation.compensation_promoted + compensation.blocker_cleared)
        } else {
            0
        }),
{
    let spent: usize = compensation.compensation_promoted + compensation.blocker_cleared;
    max_jobs.saturating_sub(spent)
}

/// What a notification reports: nothing while fetching is off or the session
/// is not bound to the source, else what the queue did.
pub fn reconcile_report(
    fetch_enabled: bool,
    bound: bool,
    compensation: &CompensationReport,
    gap: Option<GapReport>,
) -> (r: RemoteCoverReconcileDto)
    ensures
        r.binding_available == (fetch_enabled && bound),
        !(fetch_enabled && bound) ==> r.compensation_promoted == 0 && r.blocker_cleared == 0
            && r.jobs_created == 0 && !r.claimable && !r.truncated,
        fetch_enabled && bound ==> {
            &&& r.compensation_promoted == compensation.compensation_promoted as u32
            &&& r.blocker_cleared == compensation.blocker_cleared as u32
            &&& r.jobs_created == (match gap {
                Some(g) => g.jobs_created as u32,
                None => 0u32,
            })
            &&& r.truncated == (compensation.truncated || (gap is Some && (gap->0).truncated))
            &&& r.claimable == (compensation.claimable_work || (gap is Some
                && (gap->0).jobs_created > 0))
        },
{
    let mut report = RemoteCoverReconcileDto::default();
    if !fetch_enabled || !bound {
        return report;
    }
    report.binding_available = true;
    report.compensation_promoted = compensation.compensation_promoted as u32;
    report.blocker_cleared = compensation.blocker_cleared as u32;
    report.truncated = compensation.truncated;
    report.claimable = compensation.claimable_work;
    match gap {
        Some(g) => {
            report.jobs_created = g.jobs_created as u32;
            report.truncated = report.truncated || g.truncated;
            report.claimable = report.claimable || g.jobs_created > 0;
        },
        None => {},
    }
    report
}

/// What has been found out when a session becomes ready.
pub enum ReadyEvent {
    /// Whether covers may be fetched at all.
    Setting { enabled: bool },
    /// Whether the source exists.
    Known { known: bool },
    /// The completed generations have been bound to the session.
    Rebound { session: u64 },
    /// Whether the session is bound to the source now.
    Bound { bound: bool },
    /// The failures have been repaired. The quality of covers is the setting
    /// as it is stored now.
    Compensated { compensation: CompensationReport, quality: Option<String> },
    /// The missing covers have been queued too.
    Filled { compensation: CompensationReport, gap: GapReport },
}

/// What is done next when a session becomes ready.
pub enum ReadyAction {
    /// Ask whether the source exists.
    AskSource,
    /// Bind the completed generations of the source to the session.
    Rebind,
    /// Ask whether the session, in its stored form, is bound to the source.
    AskBinding { token: i64 },
    /// Repair failures, at most so many.
    Compensate { max_jobs: usize },
    /// Queue missing covers of this profile, at most so many.
    FillGaps { max_jobs: usize, profile: String },
    /// Report, and wake the workers of the source where so marked.
    Finish { report: RemoteCoverReconcileDto, wake: bool },
    /// Refuse the notification.
    Refuse(String),
}

/// The jobs that repaired failures have left of an allowance.
pub open spec fn jobs_left(max_jobs: usize, compensation: CompensationReport) -> int {
    if max_jobs >= compensation.compensation_promoted + compensation.blocker_cleared {
        max_jobs - (compensation.compensation_promoted + compensation.blocker_cleared)
    } else {
        0
    }
}

/// Whether a report says that nothing was done.
pub open spec fn reports_nothing(report: RemoteCoverReconcileDto) -> bool {
    report == (RemoteCoverReconcileDto {
        binding_available: false,
        compensation_promoted: 0,
        blocker_cleared: 0,
        jobs_created: 0,
        claimable: false,
        truncated: false,
    })
}

/// Whether a report says what the queue did.
pub open spec fn reports_work(
    report: RemoteCoverReconcileDto,
    compensation: CompensationReport,
    created: usize,
    gap_truncated: bool,
) -> bool {
    &&& report.binding_available
    &&& report.compensation_promoted == compensation.compensation_promoted as u32
    &&& report.blocker_cleared == compensation.blocker_cleared as u32
    &&& report.jobs_created == created as u32
    &&& report.truncated == (compensation.truncated || gap_truncated)
    &&& report.claimable == (compensation.claimable_work || created > 0)
}

/// Whether `action` follows `event`: nothing is done while fetching is off or
/// where the session is not bound to the source; failures are repaired
/// first, missing covers are queued only within what is left, and the workers
/// are woken exactly where there is work for them.
pub open spec fn ready_follows(event: ReadyEvent, max_jobs: usize, action: ReadyAction) -> bool {
    match event {
        ReadyEvent::Setting { enabled } => if enabled {
            action == ReadyAction::AskSource
        } else {
            action matches ReadyAction::Finish { report, wake } && reports_nothing(report) && !wake
        },
        ReadyEvent::Known { known } => if known {
            action == ReadyAction::Rebind
        } else {
            action matches ReadyAction::Refuse(text) && text@ == "书源不存在"@
        },
        ReadyEvent::Rebound { session } => if session <= i64::MAX {
            action matches ReadyAction::AskBinding { token } && token == session
        } else {
            action matches ReadyAction::Refuse(text) && text@ == "登录状态已失效"@
        },
        ReadyEvent::Bound { bound } => if bound {
            action == (ReadyAction::Compensate { max_jobs })
        } else {
            action matches ReadyAction::Finish { report, wake } && reports_nothing(report) && !wake
        },
        ReadyEvent::Compensated { compensation, quality } => if jobs_left(max_jobs, compensation)
            > 0 {
            action matches ReadyAction::FillGaps { max_jobs: left, profile } && left == jobs_left(
                max_jobs,
                compensation,
            ) && profile@ == quality_profile(quality)
        } else {
            action matches ReadyAction::Finish { report, wake } && reports_work(
                report,
                compensation,
                0,
                false,
            ) && wake == report.claimable
        },
        ReadyEvent::Filled { compensation, gap } => {
            action matches ReadyAction::Finish { report, wake } && reports_work(
                report,
                compensation,
                gap.jobs_created,
                gap.truncated,
            ) && wake == report.claimable
        },
    }
}

/// What follows an event when a session becomes ready. `max_jobs` is how many
/// jobs one notification may touch.
pub fn session_ready_step(event: ReadyEvent, max_jobs: usize) -> (r: ReadyAction)
    requires
        event matches ReadyEvent::Compensated { compensation, .. }
            ==> compensation.compensation_promoted + compensation.blocker_cleared <= usize::MAX,
    ensures
        ready_follows(event, max_jobs, r),
{
    match event {
        ReadyEvent::Setting { enabled } => if enabled {
            ReadyAction::AskSource
        } else {
            ReadyAction::Finish { report: RemoteCoverReconcileDto::default(), wake: false }
        },
        ReadyEvent::Known { known } => if known {
            ReadyAction::Rebind
        } else {
            ReadyAction::Refuse("书源不存在".to_owned())
        },
        ReadyEvent::Rebound { session } => match session_token(true, session) {
            Ok(token) => ReadyAction::AskBinding { token },
            Err(text) => ReadyAction::Refuse(text),
        },
        ReadyEvent::Bound { bound } => if bound {
            ReadyAction::Compensate { max_jobs }
        } else {
            ReadyAction::Finish { report: RemoteCoverReconcileDto::default(), wake: false }
        },
        ReadyEvent::Compensated { compensation, quality } => {
            let left: usize = remaining_jobs(max_jobs, &compensation);
            if left > 0 {
                return ReadyAction::FillGaps {
                    max_jobs: left,
                    profile: cover_quality_profile(quality),
                };
            }
            let report = reconcile_report(true, true, &compensation, None);
            let wake = report.claimable;
            ReadyAction::Finish { report, wake }
        },
        ReadyEvent::Filled { compensation, gap } => {
            let report = reconcile_report(true, true, &compensation, Some(gap));
            let wake = report.claimable;
            ReadyAction::Finish { report, wake }
        },
    }
}

/// Workers are woken only by a notification that found the session bound to
/// its source and left work behind, and nothing is repaired or queued before
/// that binding was found.
pub proof fn law_nothing_without_a_binding(
    event: ReadyEvent,
    max_jobs: usize,
    action: ReadyAction,
)
    requires
        ready_follows(event, max_jobs, action),
    ensures
        action matches ReadyAction::Finish { report, wake } ==> wake == report.claimable && (wake
            ==> report.binding_available),
        action is Compensate ==> event == (ReadyEvent::Bound { bound: true }),
        action is FillGaps ==> event is Compensated,
{
}

// ------------------------------------------------------------------
// What workers and notifications promise
// ------------------------------------------------------------------

/// A route of its own kind is followed as that; one whose kind is not known
/// as the source is.
pub proof fn law_unknown_routes_are_those_of_the_source(kind: Seq<char>, source_type: Seq<char>)
    ensures
        kind != "unknown"@ ==> route_type(kind, source_type) == kind,
        kind == "unknown"@ ==> route_type(kind, source_type) == source_type,
{
}

/// The budget is kept for a credential where one is named, else for a client,
/// else for the source; an empty name is none.
pub proof fn law_budgets_are_kept_for_an_account(
    credential: Option<String>,
    client: Option<String>,
    source_id: Seq<char>,
)
    ensures
        credential is Some && (credential->0)@.len() > 0 ==> account_identity(
            credential,
            client,
            source_id,
        ) == (credential->0)@,
        (credential is None || (credential->0)@.len() == 0) && client is Some && (client->0)@.len()
            > 0 ==> account_identity(credential, client, source_id) == (client->0)@,
        (credential is None || (credential->0)@.len() == 0) && (client is None || (
        client->0)@.len() == 0) ==> account_identity(credential, client, source_id) == source_id,
{
}

/// What a worker does before it has a job: it claims one for ten minutes
/// while fetching is on; with nothing due it sleeps until the next job is,
/// half a minute at most; else it ends.
pub proof fn law_idle_workers_claim_sleep_or_end(event: WorkerEvent, action: WorkerAction)
    requires
        follows(event, action),
    ensures
        action is Claim <==> event == (WorkerEvent::Setting { fetch_enabled: true }),
        action matches WorkerAction::Claim { lease_ms } ==> lease_ms == 10 * 60 * 1000,
        action is Sleep <==> (event matches WorkerEvent::NothingDue { next_retry_at, now_ms }
            && next_retry_at is Some && next_retry_at->0 > now_ms),
        action matches WorkerAction::Sleep { ms } ==> (event matches WorkerEvent::NothingDue {
            next_retry_at,
            now_ms,
        } && ms == (if next_retry_at->0 - now_ms <= 30 * 1000 {
            next_retry_at->0 - now_ms
        } else {
            30000
        })),
        action is Exit <==> event == (WorkerEvent::Setting { fetch_enabled: false })
            || event is ClaimFailed || (event matches WorkerEvent::NothingDue {
            next_retry_at,
            now_ms,
        } && (next_retry_at is None || next_retry_at->0 <= now_ms)),
{
}

/// A background job is given back while a page was read within the last
/// twenty seconds, for two seconds; a job whose account has no budget left,
/// until there is, from a millisecond to half a minute. Every other claimed
/// job is looked up.
pub proof fn law_jobs_are_given_back_while_they_must_wait(
    event: WorkerEvent,
    action: WorkerAction,
)
    requires
        follows(event, action),
    ensures
        action is ReleaseAndSleep <==> event is BudgetExhausted || (event matches WorkerEvent::Claimed {
            demand_kind,
            idle_ms,
        } && demand_kind@ == "background"@ && idle_ms is Some && idle_ms->0 < 20 * 1000),
        action is LookupRoute <==> (event matches WorkerEvent::Claimed { demand_kind, idle_ms }
            && !(demand_kind@ == "background"@ && idle_ms is Some && idle_ms->0 < 20 * 1000)),
        event is Claimed && action is ReleaseAndSleep ==> action == (
        WorkerAction::ReleaseAndSleep { ms: 2000 }),
        event matches WorkerEvent::BudgetExhausted { deadline, now_ms } ==> (
        action matches WorkerAction::ReleaseAndSleep { ms } && ms == (if deadline - now_ms <= 1 {
            1
        } else if deadline - now_ms <= 30 * 1000 {
            deadline - now_ms
        } else {
            30000
        })),
{
}

/// A claimed job is routed, paid for from the budget, opened, fetched, stored
/// and marked ready, in this order, each step after the one before and at no
/// other time.
pub proof fn law_covers_are_fetched_in_order(event: WorkerEvent, action: WorkerAction)
    requires
        follows(event, action),
    ensures
        action is ReserveBudget <==> event is Routed,
        action is OpenAdapter <==> event is BudgetReserved,
        action is Fetch <==> event is AdapterReady,
        action is Store <==> event is Fetched,
        action is MarkReady <==> event == (WorkerEvent::Cached { stored: true }),
        action is Again <==> event == (WorkerEvent::MarkedReady { accepted: true }),
        action matches WorkerAction::Store { by_path } ==> (event matches WorkerEvent::Fetched {
            profile,
            selection,
        } && by_path == (profile_size(profile@) == (340nat, 480nat) && selection@ == "default"@)),
        action matches WorkerAction::Fetch { width, height, page } ==> (
        event matches WorkerEvent::AdapterReady { profile, selection } && (width as nat, height as nat)
            == profile_size(profile@) && page == selected_page(pieces(selection@, '|'))),
{
}

/// A job without a route fails for that, one whose cover could not be stored
/// or marked for that; one whose session is no longer good is blocked, and
/// the worker ends. A failed fetch waits exactly where the failure passes by
/// itself and an attempt is left, and is recorded otherwise.
pub proof fn law_failed_jobs_are_marked(event: WorkerEvent, action: WorkerAction)
    requires
        follows(event, action),
    ensures
        action is Mark <==> event is NoRoute || event == (WorkerEvent::Cached { stored: false })
            || event == (WorkerEvent::MarkedReady { accepted: false }),
        action matches WorkerAction::Mark { state, code } ==> state is Failed && code@ == (
        if event is NoRoute {
            "route_missing"@
        } else {
            "coverStorage"@
        }),
        action is MarkAndExit <==> event is AdapterFailed,
        action matches WorkerAction::MarkAndExit { state, code } ==> state is Blocked && code@
            == "authExpired"@,
        action is RetryWait <==> (event matches WorkerEvent::FetchFailed { error, attempt, .. }
            && attempt < 3 && (error is TransientNetwork || error is RateLimited)),
        action is RecordFailure <==> (event matches WorkerEvent::FetchFailed { error, attempt, .. }
            && !(attempt < 3 && (error is TransientNetwork || error is RateLimited))),
        action matches WorkerAction::RecordFailure { state, .. } ==> !(state is Ready)
            && !(state is Pending) && !(state is Running) && !(state is RetryWait),
{
}

/// A number kept within two others is the nearest one within them.
pub proof fn law_clamped_numbers_stay_within(n: int, low: int, high: int)
    requires
        low <= high,
    ensures
        low <= clamped(n, low, high) <= high,
        low <= n <= high ==> clamped(n, low, high) == n,
        n < low ==> clamped(n, low, high) == low,
        n > high ==> clamped(n, low, high) == high,
{
}

/// A notification asks for the source where fetching is on, rebinds a known
/// source, asks for the binding, repairs failures of a bound session, and
/// queues missing covers where the repairs left some of the allowance; in
/// this order, each after the one before and at no other time.
pub proof fn law_notifications_go_in_order(event: ReadyEvent, max_jobs: usize, action: ReadyAction)
    requires
        ready_follows(event, max_jobs, action),
    ensures
        action is AskSource <==> event == (ReadyEvent::Setting { enabled: true }),
        action is Rebind <==> event == (ReadyEvent::Known { known: true }),
        action is AskBinding <==> (event matches ReadyEvent::Rebound { session } && session
            <= i64::MAX),
        action matches ReadyAction::AskBinding { token } ==> (event matches ReadyEvent::Rebound {
            session,
        } && token == session),
        action is Compensate <==> event == (ReadyEvent::Bound { bound: true }),
        action matches ReadyAction::Compensate { max_jobs: most } ==> most == max_jobs,
        action is FillGaps <==> (event matches ReadyEvent::Compensated { compensation, .. }
            && compensation.compensation_promoted + compensation.blocker_cleared < max_jobs),
        action matches ReadyAction::FillGaps { max_jobs: left, profile } ==> (
        event matches ReadyEvent::Compensated { compensation, quality } && left
            + compensation.compensation_promoted + compensation.blocker_cleared == max_jobs
            && profile@ == quality_profile(quality)),
        action is Refuse <==> event == (ReadyEvent::Known { known: false }) || (
        event matches ReadyEvent::Rebound { session } && session > i64::MAX),
        action is Finish <==> event == (ReadyEvent::Setting { enabled: false }) || event == (
        ReadyEvent::Bound { bound: false }) || event is Filled || (
        event matches ReadyEvent::Compensated { compensation, .. }
            && compensation.compensation_promoted + compensation.blocker_cleared >= max_jobs),
{
}

/// A finished notification reports nothing where fetching is off or the
/// session is not bound; else it reports what was repaired and queued, and
/// wakes workers exactly where something can be claimed.
pub proof fn law_notifications_report_what_was_done(
    event: ReadyEvent,
    max_jobs: usize,
    report: RemoteCoverReconcileDto,
    wake: bool,
)
    requires
        ready_follows(event, max_jobs, ReadyAction::Finish { report, wake }),
    ensures
        report.binding_available <==> event is Compensated || event is Filled,
        !report.binding_available ==> !wake && !report.claimable && !report.truncated
            && report.compensation_promoted == 0 && report.blocker_cleared == 0
            && report.jobs_created == 0,
        event matches ReadyEvent::Compensated { compensation, .. } ==> (wake
            <==> compensation.claimable_work) && (report.truncated <==> compensation.truncated)
            && report.jobs_created == 0,
        event matches ReadyEvent::Filled { compensation, gap } ==> (wake
            <==> compensation.claimable_work || gap.jobs_created > 0) && (report.truncated
            <==> compensation.truncated || gap.truncated) && report.jobs_created
            == gap.jobs_created as u32 && report.compensation_promoted
            == compensation.compensation_promoted as u32 && report.blocker_cleared
            == compensation.blocker_cleared as u32,
{
}

} // verus!
