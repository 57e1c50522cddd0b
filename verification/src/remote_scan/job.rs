//! The life of a scan: how it is admitted and planned, what it leaves behind
//! when it ends, and what is shown of it after a restart.

use vstd::prelude::*;
use vstd::string::*;

use crate::number::{dec_u64, decimal, lemma_decimal_injective};
use crate::remote_scan::failure::{error_code, stored_code};
use crate::remote_scan::model::{
    canonical, normalize_path, CoverJobKey, CoverJobState, RemoteAssetKind, RemoteEntry,
    RemoteScanError,
};
use crate::remote_scan::progress::RemoteScanStatusDto;
use crate::text::{
    ascii_lower, blank, cat2, is_blank, law_trimming_finds_the_core, lowered, opt_text, same,
    stripped, trim, CharClass,
};

verus! {

/// What is handed out of a scan job.
#[derive(Debug)]
pub struct RemoteScanJobDto {
    pub job_id: String,
    pub source_id: String,
    pub status: String,
    pub mode: String,
    pub generation: i64,
}

/// What a scan was asked for.
pub struct StartConfig {
    pub source_type: String,
    pub source_id: String,
    pub session: u64,
    pub root_path: String,
    pub mode: String,
    pub force_recheck: bool,
}

impl StartConfig {
    /// A copy.
    pub fn copy(&self) -> (r: StartConfig)
        ensures
            r == *self,
    {
        StartConfig {
            source_type: self.source_type.clone(),
            source_id: self.source_id.clone(),
            session: self.session,
            root_path: self.root_path.clone(),
            mode: self.mode.clone(),
            force_recheck: self.force_recheck,
        }
    }
}

/// The request of a caller: the mode counts without ASCII case. Manual
/// requests look at every directory again.
pub fn scan_request(
    source_type: String,
    source_id: String,
    session: u64,
    root_path: String,
    mode: &str,
    manual: bool,
) -> (r: StartConfig)
    ensures
        r.source_type == source_type,
        r.source_id == source_id,
        r.session == session,
        r.root_path == root_path,
        r.mode@ == lowered(mode@),
        r.force_recheck == manual,
{
    StartConfig {
        source_type,
        source_id,
        session,
        root_path,
        mode: ascii_lower(mode),
        force_recheck: manual,
    }
}

/// The canonical path that a scan begins at.
pub fn initial_scan_path(configured_root: &str) -> (r: String)
    ensures
        r@ == canonical(configured_root@),
{
    normalize_path(configured_root)
}

// ------------------------------------------------------------------
// Admission
// ------------------------------------------------------------------

/// The text with which a request is refused at once, if any.
pub open spec fn request_refusal(mode: Seq<char>, source_type: Seq<char>) -> Option<Seq<char>> {
    if mode != "full"@ && mode != "incremental"@ {
        Some("invalid scan mode"@)
    } else if source_type == "local"@ || source_type == "smb"@ {
        Some("source is local-only"@)
    } else {
        None
    }
}

/// Checks a request by itself.
pub fn check_scan_request(config: &StartConfig) -> (r: Result<(), String>)
    ensures
        match r {
            Ok(_) => request_refusal(config.mode@, config.source_type@) is None,
            Err(text) => request_refusal(config.mode@, config.source_type@) == Some(text@),
        },
{
    if !same(config.mode.as_str(), "full") && !same(config.mode.as_str(), "incremental") {
        return Err("invalid scan mode".to_owned());
    }
    if same(config.source_type.as_str(), "local") || same(config.source_type.as_str(), "smb") {
        return Err("source is local-only".to_owned());
    }
    Ok(())
}

/// Checks that the requested root is still that of the source; `root_matches`
/// is absent where this could not be looked up.
pub fn check_scan_root(root_matches: Option<bool>) -> (r: Result<(), String>)
    ensures
        match root_matches {
            None => r is Err && r->Err_0@ == "source proof unavailable"@,
            Some(false) => r is Err && r->Err_0@ == "source root changed"@,
            Some(true) => r is Ok,
        },
{
    match root_matches {
        None => Err("source proof unavailable".to_owned()),
        Some(same_root) => if same_root {
            Ok(())
        } else {
            Err("source root changed".to_owned())
        },
    }
}

/// A scan job.
pub struct ScanJob {
    pub job_id: String,
    pub config: StartConfig,
    pub status: RemoteScanStatusDto,
    pub cancelled: bool,
}

impl ScanJob {
    /// Whether the job runs or is paused.
    pub open spec fn active(&self) -> bool {
        self.status.status@ == "running"@ || self.status.status@ == "paused"@
    }

    /// What is handed out of the job.
    pub fn dto(&self) -> (r: RemoteScanJobDto)
        ensures
            r.job_id == self.job_id,
            r.source_id == self.status.source_id,
            r.status == self.status.status,
            r.mode == self.status.mode,
            r.generation == self.status.generation,
    {
        RemoteScanJobDto {
            job_id: self.job_id.clone(),
            source_id: self.status.source_id.clone(),
            status: self.status.status.clone(),
            mode: self.status.mode.clone(),
            generation: self.status.generation,
        }
    }
}

/// The jobs of this process, at most one for each source.
pub struct ScanJobs {
    pub jobs: Vec<ScanJob>,
    /// The number of the next job.
    pub next_number: u64,
}

/// The name of a job.
pub open spec fn job_name(number: nat) -> Seq<char> {
    "remote-scan-"@ + decimal(number)
}

/// Whether this is the name of a job with a number below the given one.
pub open spec fn named_below(name: Seq<char>, next: u64) -> bool {
    exists|n: nat| n < next && name == #[trigger] job_name(n)
}

proof fn lemma_job_names_differ(m: nat, n: nat)
    requires
        job_name(m) == job_name(n),
    ensures
        m == n,
{
    let k = "remote-scan-"@.len() as int;
    assert(job_name(m).skip(k) =~= decimal(m));
    assert(job_name(n).skip(k) =~= decimal(n));
    lemma_decimal_injective(m, n);
}

/// What becomes of an admitted request.
pub enum Admission {
    /// A job of the source is active; it answers the request.
    Running(RemoteScanJobDto),
    /// A new job is made. Where the source has none at all, what an earlier
    /// process left running is first recorded as interrupted.
    Proceed { recover: bool },
}

impl ScanJobs {
    /// No source has two jobs.
    pub open spec fn wf(&self) -> bool {
        forall|i: int, j: int|
            0 <= i < j < self.jobs@.len() ==> #[trigger] self.jobs@[i].config.source_id@
                != #[trigger] self.jobs@[j].config.source_id@
    }

    /// Every job was given a number below the next one.
    pub open spec fn numbered(&self) -> bool {
        forall|i: int|
            0 <= i < self.jobs@.len() ==> named_below(
                (#[trigger] self.jobs@[i]).job_id@,
                self.next_number,
            )
    }

    /// Whether the job at `i` is that of the source.
    pub open spec fn is_job_of(&self, i: int, source_id: Seq<char>) -> bool {
        0 <= i < self.jobs@.len() && self.jobs@[i].config.source_id@ == source_id
    }

    /// Whether the source has a job.
    pub open spec fn has_job(&self, source_id: Seq<char>) -> bool {
        exists|i: int| self.is_job_of(i, source_id)
    }

    /// Whether all jobs but the one at `i` are as they were.
    pub open spec fn others_kept(&self, before: ScanJobs, i: int) -> bool {
        &&& self.jobs@.len() == before.jobs@.len()
        &&& self.next_number == before.next_number
        &&& forall|j: int|
            0 <= j < self.jobs@.len() && j != i ==> #[trigger] self.jobs@[j] == before.jobs@[j]
    }

    proof fn lemma_names_kept(&self, before: ScanJobs)
        requires
            self.jobs@.len() == before.jobs@.len(),
            self.next_number == before.next_number,
            forall|i: int|
                0 <= i < self.jobs@.len() ==> (#[trigger] self.jobs@[i]).job_id
                    == before.jobs@[i].job_id,
        ensures
            before.numbered() ==> self.numbered(),
    {
        if before.numbered() {
            assert forall|i: int| 0 <= i < self.jobs@.len() implies named_below(
                (#[trigger] self.jobs@[i]).job_id@,
                self.next_number,
            ) by {
                assert(named_below(before.jobs@[i].job_id@, before.next_number));
            }
        }
    }

    /// No job exists.
    pub fn new() -> (r: ScanJobs)
        ensures
            r.wf(),
            r.numbered(),
            r.jobs@.len() == 0,
            r.next_number == 1,
    {
        ScanJobs { jobs: Vec::new(), next_number: 1 }
    }

    /// Where the job of a source is.
    pub fn position(&self, source_id: &str) -> (r: Option<usize>)
        ensures
            match r {
                Some(i) => self.is_job_of(i as int, source_id@),
                None => !self.has_job(source_id@),
            },
    {
        let mut i: usize = 0;
        while i < self.jobs.len()
            invariant
                i <= self.jobs.len(),
                forall|j: int| 0 <= j < i ==> !#[trigger] self.is_job_of(j, source_id@),
            decreases self.jobs.len() - i,
        {
            if same(self.jobs[i].config.source_id.as_str(), source_id) {
                return Some(i);
            }
            i = i + 1;
        }
        None
    }

    /// Admits a checked request. An active job answers it, unless it resumes
    /// that job: then the job is cancelled and a new one takes its place.
    pub fn answer_request(&mut self, source_id: &str, resume: bool) -> (r: Admission)
        requires
            old(self).wf(),
        ensures
            final(self).wf(),
            old(self).numbered() ==> final(self).numbered(),
            !old(self).has_job(source_id@) ==> r == (Admission::Proceed { recover: true })
                && *final(self) == *old(self),
            forall|i: int| #[trigger]
                old(self).is_job_of(i, source_id@) ==> {
                    let job = old(self).jobs@[i];
                    &&& final(self).others_kept(*old(self), i)
                    &&& final(self).jobs@[i].job_id == job.job_id
                    &&& final(self).jobs@[i].config == job.config
                    &&& final(self).jobs@[i].status == job.status
                    &&& final(self).jobs@[i].cancelled == (job.cancelled || (job.active()
                        && resume))
                    &&& if job.active() && !resume {
                        r matches Admission::Running(dto) && dto.job_id == job.job_id
                            && dto.source_id == job.status.source_id && dto.status
                            == job.status.status && dto.mode == job.status.mode && dto.generation
                            == job.status.generation
                    } else {
                        r == (Admission::Proceed { recover: false })
                    }
                },
    {
        match self.position(source_id) {
            Some(i) => {
                let active = same(self.jobs[i].status.status.as_str(), "running") || same(
                    self.jobs[i].status.status.as_str(),
                    "paused",
                );
                proof {
                    assert forall|k: int| #[trigger] old(self).is_job_of(k, source_id@) implies k
                        == i by {
                        assert(old(self).is_job_of(i as int, source_id@));
                        if k < i {
                            assert(old(self).jobs@[k].config.source_id@ != old(self).jobs@[i as int].config.source_id@);
                        } else if k > i {
                            assert(old(self).jobs@[i as int].config.source_id@ != old(self).jobs@[k].config.source_id@);
                        }
                    }
                }
                if active {
                    if !resume {
                        return Admission::Running(self.jobs[i].dto());
                    }
                    let mut jobs: Vec<ScanJob> = Vec::new();
                    std::mem::swap(&mut self.jobs, &mut jobs);
                    jobs[i].cancelled = true;
                    std::mem::swap(&mut self.jobs, &mut jobs);
                    proof {
                        self.lemma_names_kept(*old(self));
                    }
                }
                Admission::Proceed { recover: false }
            },
            None => Admission::Proceed { recover: true },
        }
    }
}

// ------------------------------------------------------------------
// Planning
// ------------------------------------------------------------------

/// What is stored of the last scan of a source.
pub struct StoredScan {
    pub generation: i64,
    pub checkpoint: Option<String>,
    pub status: String,
}

/// The mode of a scan. An incremental scan needs a stored success and the
/// proof of a full one before it; a resumed scan is always full.
pub open spec fn scan_mode(
    requested: Seq<char>,
    persisted_status: Option<Seq<char>>,
    has_full_baseline: bool,
    resume: bool,
) -> Seq<char> {
    if resume || persisted_status != Some("Succeeded"@) || !has_full_baseline {
        "full"@
    } else {
        requested
    }
}

/// The mode of a scan.
pub fn effective_scan_mode(
    requested: &str,
    persisted_status: Option<&str>,
    has_full_baseline: bool,
    resume: bool,
) -> (r: String)
    ensures
        r@ == scan_mode(
            requested@,
            match persisted_status {
                Some(s) => Some(s@),
                None => None,
            },
            has_full_baseline,
            resume,
        ),
{
    let succeeded = match persisted_status {
        Some(s) => same(s, "Succeeded"),
        None => false,
    };
    if resume || !succeeded || !has_full_baseline {
        "full".to_owned()
    } else {
        requested.to_owned()
    }
}

/// How a scan is run.
pub struct ScanPlan {
    pub generation: i64,
    pub mode: String,
    pub checkpoint: Option<String>,
    pub root: String,
    pub incremental: bool,
    pub force_recheck: bool,
}

/// The generation after a stored one.
pub open spec fn next_generation(stored: Option<StoredScan>) -> int {
    match stored {
        Some(s) => if s.generation == i64::MAX {
            i64::MAX as int
        } else {
            s.generation + 1
        },
        None => 1,
    }
}

/// Plans a scan.
pub fn plan_scan(
    config: &StartConfig,
    resume: bool,
    stored: Option<StoredScan>,
    has_full_baseline: bool,
) -> (r: ScanPlan)
    ensures
        r.generation == next_generation(stored),
        r.mode@ == scan_mode(
            config.mode@,
            match stored {
                Some(s) => Some(s.status@),
                None => None,
            },
            has_full_baseline,
            resume,
        ),
        r.checkpoint == (match stored {
            Some(s) => s.checkpoint,
            None => None,
        }),
        r.root@ == canonical(config.root_path@),
        r.incremental == (r.mode@ == "incremental"@),
        r.force_recheck == (r.incremental && config.force_recheck),
{
    let root = initial_scan_path(config.root_path.as_str());
    match stored {
        Some(s) => {
            let mode = effective_scan_mode(
                config.mode.as_str(),
                Some(s.status.as_str()),
                has_full_baseline,
                resume,
            );
            let generation: i64 = if s.generation == i64::MAX {
                i64::MAX
            } else {
                s.generation + 1
            };
            let incremental = same(mode.as_str(), "incremental");
            ScanPlan {
                generation,
                mode,
                checkpoint: s.checkpoint,
                root,
                incremental,
                force_recheck: incremental && config.force_recheck,
            }
        },
        None => {
            let mode = effective_scan_mode(config.mode.as_str(), None, has_full_baseline, resume);
            let incremental = same(mode.as_str(), "incremental");
            ScanPlan {
                generation: 1,
                mode,
                checkpoint: None,
                root,
                incremental,
                force_recheck: incremental && config.force_recheck,
            }
        },
    }
}

/// An entry of a listing that a caller already has.
pub struct InitialListingEntry {
    pub name: String,
    pub path: String,
    pub logical_path: Option<String>,
    pub is_dir: bool,
    pub size: Option<u64>,
    pub mtime: Option<i64>,
    pub asset_kind: RemoteAssetKind,
}

/// Whether a caller has handed in a listing at all. A resumed scan takes none.
pub fn wants_initial_listing(listing: &Option<String>, resume: bool) -> (r: bool)
    ensures
        r == (!resume && match *listing {
            Some(text) => !is_blank(text@),
            None => false,
        }),
{
    if resume {
        return false;
    }
    match listing {
        Some(text) => !blank(text.as_str()),
        None => false,
    }
}

/// Whether `entry` is the remote entry of a listed one.
pub open spec fn is_seeded(entry: RemoteEntry, from: InitialListingEntry) -> bool {
    &&& entry.name == from.name
    &&& entry.logical_path == (match from.logical_path {
        Some(p) => p,
        None => from.path,
    })
    &&& entry.provider_path == Some(from.path)
    &&& entry.is_dir == from.is_dir
    &&& entry.size == from.size
    &&& entry.mtime == from.mtime
    &&& entry.asset_kind == from.asset_kind
}

/// The remote entries of a listing that a caller already has, each with the
/// provider's own path.
pub fn parse_initial_listing(entries: &Vec<InitialListingEntry>) -> (r: Vec<(RemoteEntry, String)>)
    ensures
        r.len() == entries.len(),
        forall|i: int|
            0 <= i < r.len() ==> is_seeded((#[trigger] r@[i]).0, entries@[i]) && r@[i].1
                == entries@[i].path,
{
    let mut out: Vec<(RemoteEntry, String)> = Vec::new();
    let mut i: usize = 0;
    while i < entries.len()
        invariant
            i <= entries.len(),
            out.len() == i,
            forall|j: int|
                0 <= j < i ==> is_seeded((#[trigger] out@[j]).0, entries@[j]) && out@[j].1
                    == entries@[j].path,
        decreases entries.len() - i,
    {
        let e = &entries[i];
        let logical_path = match &e.logical_path {
            Some(p) => p.clone(),
            None => e.path.clone(),
        };
        let entry = RemoteEntry {
            name: e.name.clone(),
            logical_path,
            provider_path: Some(e.path.clone()),
            is_dir: e.is_dir,
            size: e.size,
            mtime: e.mtime,
            asset_kind: e.asset_kind,
        };
        out.push((entry, e.path.clone()));
        i = i + 1;
    }
    out
}

/// Whether `path` is not among the first `n` routes.
pub open spec fn unseen(rows: Seq<(String, String)>, n: int, path: Seq<char>) -> bool {
    forall|j: int| 0 <= j < n ==> (#[trigger] rows[j]).0@ != path
}

/// The positions of the routes that are the first of their path.
pub open spec fn first_routes(rows: Seq<(String, String)>, n: int) -> Seq<int>
    decreases n,
{
    if n <= 0 {
        Seq::<int>::empty()
    } else if unseen(rows, n - 1, rows[n - 1].0@) {
        first_routes(rows, n - 1).push(n - 1)
    } else {
        first_routes(rows, n - 1)
    }
}

/// Of the stored routes, newest first, those that are registered: the first
/// of each logical path.
pub fn rehydrated_routes(rows: &Vec<(String, String)>) -> (r: Vec<(String, String)>)
    ensures
        ({
            let kept = first_routes(rows@, rows@.len() as int);
            &&& r.len() == kept.len()
            &&& forall|k: int| 0 <= k < kept.len() ==> #[trigger] r@[k] == rows@[kept[k]]
        }),
{
    let mut out: Vec<(String, String)> = Vec::new();
    let mut i: usize = 0;
    while i < rows.len()
        invariant
            i <= rows.len(),
            out.len() == first_routes(rows@, i as int).len(),
            forall|k: int|
                0 <= k < out.len() ==> #[trigger] out@[k] == rows@[first_routes(
                    rows@,
                    i as int,
                )[k]],
        decreases rows.len() - i,
    {
        let mut fresh = true;
        let mut j: usize = 0;
        while j < i
            invariant
                i < rows.len(),
                j <= i,
                fresh == unseen(rows@, j as int, rows@[i as int].0@),
            decreases i - j,
        {
            if same(rows[j].0.as_str(), rows[i].0.as_str()) {
                fresh = false;
            }
            j = j + 1;
        }
        if fresh {
            out.push((rows[i].0.clone(), rows[i].1.clone()));
        }
        i = i + 1;
    }
    out
}

impl ScanJobs {
    /// Enters a new job in place of an earlier one of its source, and hands
    /// out what is known of it.
    pub fn enter(&mut self, config: StartConfig, plan: &ScanPlan) -> (r: RemoteScanJobDto)
        requires
            old(self).wf(),
        ensures
            final(self).wf(),
            final(self).next_number as int == (old(self).next_number + 1) % 0x1_0000_0000_0000_0000,
            old(self).numbered() && old(self).next_number < u64::MAX ==> final(self).numbered(),
            r.job_id@ == job_name(old(self).next_number as nat),
            r.source_id == config.source_id,
            r.status@ == "running"@,
            r.mode == plan.mode,
            r.generation == plan.generation,
            exists|i: int| #[trigger]
                final(self).is_job_of(i, config.source_id@) && {
                    let job = final(self).jobs@[i];
                    &&& job.job_id == r.job_id
                    &&& !job.cancelled
                    &&& job.config.source_type == config.source_type
                    &&& job.config.source_id == config.source_id
                    &&& job.config.session == config.session
                    &&& job.config.root_path == config.root_path
                    &&& job.config.mode == plan.mode
                    &&& job.config.force_recheck == config.force_recheck
                    &&& job.status.source_id == config.source_id
                    &&& job.status.status == r.status
                    &&& job.status.mode == plan.mode
                    &&& job.status.generation == plan.generation
                    &&& job.status.checkpoint == plan.checkpoint
                    &&& job.status.last_success_at is None
                    &&& job.status.error_code is None
                    &&& job.status.counts_are_zero()
                },
            forall|source: Seq<char>|
                source != config.source_id@ ==> #[trigger] final(self).has_job(source) == old(self).has_job(source),
            forall|i: int|
                0 <= i < old(self).jobs@.len() && old(self).jobs@[i].config.source_id@
                    != config.source_id@ ==> #[trigger] final(self).jobs@[i] == old(self).jobs@[i],
    {
        let number = dec_u64(self.next_number);
        let job_id = cat2("remote-scan-", number.as_str());
        let status = RemoteScanStatusDto::begin(
            config.source_id.clone(),
            "running".to_owned(),
            plan.mode.clone(),
            plan.generation,
            plan.checkpoint.clone(),
            None,
            None,
        );
        let source = config.source_id.clone();
        let job = ScanJob {
            job_id,
            config: StartConfig {
                source_type: config.source_type,
                source_id: config.source_id,
                session: config.session,
                root_path: config.root_path,
                mode: plan.mode.clone(),
                force_recheck: config.force_recheck,
            },
            status,
            cancelled: false,
        };
        let dto = job.dto();
        self.next_number = self.next_number.wrapping_add(1);
        let ghost mid = *self;
        let found = self.position(source.as_str());
        let mut jobs: Vec<ScanJob> = Vec::new();
        std::mem::swap(&mut self.jobs, &mut jobs);
        let ghost before = jobs@;
        match found {
            Some(i) => {
                jobs[i] = job;
                std::mem::swap(&mut self.jobs, &mut jobs);
                proof {
                    let after = self.jobs@;
                    assert(after == before.update(i as int, job));
                    assert(self.is_job_of(i as int, config.source_id@));
                    assert forall|a: int, b: int| 0 <= a < b < after.len() implies #[trigger] after[a].config.source_id@
                        != #[trigger] after[b].config.source_id@ by {
                        assert(before[a].config.source_id@ != before[b].config.source_id@);
                    }
                    assert forall|s: Seq<char>| s != config.source_id@ implies #[trigger] self.has_job(
                        s,
                    ) == old(self).has_job(s) by {
                        if self.has_job(s) {
                            let k = choose|k: int| self.is_job_of(k, s);
                            assert(old(self).is_job_of(k, s));
                        }
                        if old(self).has_job(s) {
                            let k = choose|k: int| old(self).is_job_of(k, s);
                            assert(self.is_job_of(k, s));
                        }
                    }
                }
            },
            None => {
                jobs.push(job);
                std::mem::swap(&mut self.jobs, &mut jobs);
                proof {
                    let after = self.jobs@;
                    let n = before.len() as int;
                    assert(after == before.push(job));
                    assert(self.is_job_of(n, config.source_id@));
                    assert forall|a: int, b: int| 0 <= a < b < after.len() implies #[trigger] after[a].config.source_id@
                        != #[trigger] after[b].config.source_id@ by {
                        if b == n {
                            assert(!mid.is_job_of(a, config.source_id@));
                        } else {
                            assert(before[a].config.source_id@ != before[b].config.source_id@);
                        }
                    }
                    assert forall|s: Seq<char>| s != config.source_id@ implies #[trigger] self.has_job(
                        s,
                    ) == old(self).has_job(s) by {
                        if self.has_job(s) {
                            let k = choose|k: int| self.is_job_of(k, s);
                            assert(k < n);
                            assert(old(self).is_job_of(k, s));
                        }
                        if old(self).has_job(s) {
                            let k = choose|k: int| old(self).is_job_of(k, s);
                            assert(self.is_job_of(k, s));
                        }
                    }
                }
            },
        }
        proof {
            if old(self).numbered() && old(self).next_number < u64::MAX {
                assert forall|i: int| 0 <= i < self.jobs@.len() implies named_below(
                    (#[trigger] self.jobs@[i]).job_id@,
                    self.next_number,
                ) by {
                    if self.jobs@[i] == job {
                        assert(self.jobs@[i].job_id@ == job_name(old(self).next_number as nat));
                    } else {
                        assert(self.jobs@[i] == old(self).jobs@[i]);
                        assert(named_below(old(self).jobs@[i].job_id@, old(self).next_number));
                    }
                }
            }
        }
        dto
    }

    /// Stops a job, leaving it in the given state under the same code.
    fn stop(&mut self, source_id: &str, state: &'static str) -> (r: Result<usize, String>)
        requires
            old(self).wf(),
        ensures
            final(self).wf(),
            old(self).numbered() ==> final(self).numbered(),
            match r {
                Err(text) => !old(self).has_job(source_id@) && text@ == "scan job not found"@
                    && *final(self) == *old(self),
                Ok(i) => {
                    let was = old(self).jobs@[i as int];
                    let now = final(self).jobs@[i as int];
                    &&& old(self).is_job_of(i as int, source_id@)
                    &&& final(self).others_kept(*old(self), i as int)
                    &&& now.job_id == was.job_id && now.config == was.config && now.cancelled
                    &&& stopped_status(now.status, was.status, state@)
                },
            },
    {
        match self.position(source_id) {
            Some(i) => {
                let mut jobs: Vec<ScanJob> = Vec::new();
                std::mem::swap(&mut self.jobs, &mut jobs);
                let ghost before = jobs@;
                jobs[i].cancelled = true;
                jobs[i].status.status = state.to_owned();
                jobs[i].status.error_code = Some(state.to_owned());
                std::mem::swap(&mut self.jobs, &mut jobs);
                proof {
                    let after = self.jobs@;
                    assert forall|a: int, b: int| 0 <= a < b < after.len() implies #[trigger] after[a].config.source_id@
                        != #[trigger] after[b].config.source_id@ by {
                        assert(before[a].config.source_id@ != before[b].config.source_id@);
                    }
                    self.lemma_names_kept(*old(self));
                }
                Ok(i)
            },
            None => Err("scan job not found".to_owned()),
        }
    }

    /// Pauses the job of a source.
    pub fn remote_scan_pause(&mut self, source_id: &str) -> (r: Result<usize, String>)
        requires
            old(self).wf(),
        ensures
            final(self).wf(),
            old(self).numbered() ==> final(self).numbered(),
            match r {
                Err(text) => !old(self).has_job(source_id@) && text@ == "scan job not found"@
                    && *final(self) == *old(self),
                Ok(i) => {
                    let was = old(self).jobs@[i as int];
                    let now = final(self).jobs@[i as int];
                    &&& old(self).is_job_of(i as int, source_id@)
                    &&& final(self).others_kept(*old(self), i as int)
                    &&& now.job_id == was.job_id && now.config == was.config && now.cancelled
                    &&& stopped_status(now.status, was.status, "paused"@)
                },
            },
    {
        self.stop(source_id, "paused")
    }

    /// Cancels the job of a source.
    pub fn remote_scan_cancel(&mut self, source_id: &str) -> (r: Result<usize, String>)
        requires
            old(self).wf(),
        ensures
            final(self).wf(),
            old(self).numbered() ==> final(self).numbered(),
            match r {
                Err(text) => !old(self).has_job(source_id@) && text@ == "scan job not found"@
                    && *final(self) == *old(self),
                Ok(i) => {
                    let was = old(self).jobs@[i as int];
                    let now = final(self).jobs@[i as int];
                    &&& old(self).is_job_of(i as int, source_id@)
                    &&& final(self).others_kept(*old(self), i as int)
                    &&& now.job_id == was.job_id && now.config == was.config && now.cancelled
                    &&& stopped_status(now.status, was.status, "cancelled"@)
                },
            },
    {
        self.stop(source_id, "cancelled")
    }

    /// What a resumed scan of a source is asked for: what its job was.
    pub fn remote_scan_resume(&self, source_id: &str) -> (r: Result<StartConfig, String>)
        ensures
            match r {
                Err(text) => !self.has_job(source_id@) && text@ == "scan job not found"@,
                Ok(config) => exists|i: int| #[trigger]
                    self.is_job_of(i, source_id@) && config == self.jobs@[i].config,
            },
    {
        match self.position(source_id) {
            Some(i) => {
                assert(self.is_job_of(i as int, source_id@));
                Ok(self.jobs[i].config.copy())
            },
            None => Err("scan job not found".to_owned()),
        }
    }
}

/// A job that is made later never has the name of one that there was.
pub proof fn law_later_jobs_have_new_names(jobs: ScanJobs, later: ScanJobs, i: int)
    requires
        jobs.numbered(),
        0 <= i < jobs.jobs@.len(),
        jobs.next_number <= later.next_number,
    ensures
        jobs.jobs@[i].job_id@ != job_name(later.next_number as nat),
{
    assert(named_below(jobs.jobs@[i].job_id@, jobs.next_number));
    let n = choose|n: nat|
        n < jobs.next_number && jobs.jobs@[i].job_id@ == #[trigger] job_name(n);
    if jobs.jobs@[i].job_id@ == job_name(later.next_number as nat) {
        lemma_job_names_differ(n, later.next_number as nat);
    }
}

/// Once a scan has been cancelled a new request is answered by a new job with
/// a name of its own, whereas a paused one still answers by itself.
pub proof fn law_cancelled_scans_begin_anew(before: ScanJobs, stopped: ScanJobs, i: int)
    requires
        before.numbered(),
        0 <= i < before.jobs@.len(),
        stopped.others_kept(before, i),
        stopped.jobs@[i].job_id == before.jobs@[i].job_id,
    ensures
        stopped_status(
            stopped.jobs@[i].status,
            before.jobs@[i].status,
            "cancelled"@,
        ) ==> !stopped.jobs@[i].active() && stopped.jobs@[i].job_id@ != job_name(
            stopped.next_number as nat,
        ),
        stopped_status(
            stopped.jobs@[i].status,
            before.jobs@[i].status,
            "paused"@,
        ) ==> stopped.jobs@[i].active(),
{
    law_later_jobs_have_new_names(before, stopped, i);
    reveal_strlit("cancelled");
    reveal_strlit("running");
    reveal_strlit("paused");
    assert("cancelled"@.len() == 9 && "running"@.len() == 7 && "paused"@.len() == 6);
}

/// Whether `now` is `was` with the state and the code replaced by `state`.
pub open spec fn stopped_status(
    now: RemoteScanStatusDto,
    was: RemoteScanStatusDto,
    state: Seq<char>,
) -> bool {
    &&& now.status@ == state
    &&& opt_text(now.error_code) == Some(state)
    &&& now == (RemoteScanStatusDto { status: now.status, error_code: now.error_code, ..was })
}

// ------------------------------------------------------------------
// The end of a scan
// ------------------------------------------------------------------

/// What became of the covers that a scan has found.
#[derive(Debug, Clone, Copy, PartialEq, Eq, Structural)]
pub struct CoverConsumeResult {
    pub range_unavailable: bool,
    pub cover_unavailable: bool,
    pub fetch_paused: bool,
    pub storage_failed: bool,
}

/// What became of the covers that were handed to the queue.
pub fn consume_result(fetch_enabled: bool, storage_failed: bool) -> (r: CoverConsumeResult)
    ensures
        r.storage_failed == storage_failed,
        r.fetch_paused == (!storage_failed && !fetch_enabled),
        !r.range_unavailable && !r.cover_unavailable,
{
    CoverConsumeResult {
        range_unavailable: false,
        cover_unavailable: false,
        fetch_paused: !storage_failed && !fetch_enabled,
        storage_failed,
    }
}

/// The state in which a staged cover is left: shown already where its job is
/// ready, queued otherwise.
pub fn staged_cover_status(job: Option<CoverJobState>) -> (r: &'static str)
    ensures
        r@ == (if job == Some(CoverJobState::Ready) {
            "partial_ready"@
        } else {
            "queued"@
        }),
{
    match job {
        Some(CoverJobState::Ready) => "partial_ready",
        _ => "queued",
    }
}

/// The key of the cover job that a scan makes of an asset.
pub fn scan_cover_key(
    source_id: String,
    asset_id: String,
    content_revision: String,
    profile: String,
) -> (r: CoverJobKey)
    ensures
        r.source_id == source_id,
        r.asset_id == asset_id,
        r.content_revision == content_revision,
        r.selection_revision@ == "default"@,
        r.profile == profile,
{
    CoverJobKey {
        source_id,
        asset_id,
        content_revision,
        selection_revision: "default".to_owned(),
        profile,
    }
}

/// What has happened at the end of a scan.
pub enum FinishEvent {
    /// The engine has nothing more to do, or has failed.
    Ended { failure: Option<RemoteScanError>, cancelled: bool },
    /// The listings were published, or were not.
    Published { ok: bool },
    /// The covers were handed on; the time is needed where this ends the scan.
    Consumed { covers: CoverConsumeResult, cancelled: bool, now_ms: i64 },
    /// The proof of a full scan was recorded, or was not.
    Baseline { recorded: bool, covers: CoverConsumeResult, now_ms: i64 },
}

/// What is done next at the end of a scan.
#[derive(Clone, Copy, PartialEq, Eq, Structural)]
pub enum FinishAction {
    /// Discard what was staged; the state is that of whoever stopped the scan.
    Leave,
    /// Discard what was staged and store the state.
    DiscardAndStore,
    /// Publish the listings.
    Publish,
    /// Hand the covers on.
    ConsumeCovers,
    /// Record the proof of a full scan.
    RecordBaseline,
    /// Store the state.
    Store,
}

/// The code of a complete scan.
pub open spec fn complete_code(covers: CoverConsumeResult) -> Option<Seq<char>> {
    if covers.fetch_paused {
        Some("coverFetchPaused"@)
    } else if covers.range_unavailable {
        Some("rangeUnavailable"@)
    } else if covers.cover_unavailable {
        Some("coverUnavailable"@)
    } else {
        None
    }
}

/// What is done next, and the state and code where the event sets them.
pub open spec fn finish(event: FinishEvent, status: Seq<char>, mode: Seq<char>) -> (
    FinishAction,
    Option<(Seq<char>, Option<Seq<char>>)>,
) {
    match event {
        FinishEvent::Ended { failure, cancelled } => if status == "paused"@ || status
            == "cancelled"@ {
            (FinishAction::Leave, None)
        } else {
            match failure {
                Some(error) => (
                    FinishAction::DiscardAndStore,
                    Some(("degraded"@, Some(stored_code(error)))),
                ),
                None => if cancelled {
                    (FinishAction::DiscardAndStore, Some(("cancelled"@, Some("cancelled"@))))
                } else {
                    (FinishAction::Publish, None)
                },
            }
        },
        FinishEvent::Published { ok } => if ok {
            (FinishAction::ConsumeCovers, None)
        } else {
            (FinishAction::DiscardAndStore, Some(("degraded"@, Some("storage"@))))
        },
        FinishEvent::Consumed { covers, cancelled, now_ms } => if cancelled {
            (FinishAction::DiscardAndStore, Some(("cancelled"@, Some("cancelled"@))))
        } else if covers.storage_failed {
            (FinishAction::Store, Some(("degraded"@, Some("coverStorage"@))))
        } else if mode == "full"@ {
            (FinishAction::RecordBaseline, None)
        } else {
            (FinishAction::Store, Some(("complete"@, complete_code(covers))))
        },
        FinishEvent::Baseline { recorded, covers, now_ms } => if recorded {
            (FinishAction::Store, Some(("complete"@, complete_code(covers))))
        } else {
            (FinishAction::Store, Some(("degraded"@, Some("scanBaselineStorage"@))))
        },
    }
}

/// The time of the last success after an event: set where the scan is
/// complete.
pub open spec fn success_time(event: FinishEvent, status: Seq<char>, mode: Seq<char>, was: Option<
    i64,
>) -> Option<i64> {
    if finish(event, status, mode).1 is Some && (finish(event, status, mode).1->0).0 == "complete"@ {
        match event {
            FinishEvent::Consumed { now_ms, .. } => Some(now_ms),
            FinishEvent::Baseline { now_ms, .. } => Some(now_ms),
            _ => was,
        }
    } else {
        was
    }
}

/// Whether `now` is `was` but for the state, the code and the time of the
/// last success.
pub open spec fn finishes(now: RemoteScanStatusDto, was: RemoteScanStatusDto) -> bool {
    now == (RemoteScanStatusDto {
        status: now.status,
        error_code: now.error_code,
        last_success_at: now.last_success_at,
        ..was
    })
}

fn set_complete(status: &mut RemoteScanStatusDto, covers: CoverConsumeResult, now_ms: i64)
    ensures
        final(status).status@ == "complete"@,
        opt_text(final(status).error_code) == complete_code(covers),
        final(status).last_success_at == Some(now_ms),
        finishes(*final(status), *old(status)),
{
    status.status = "complete".to_owned();
    status.last_success_at = Some(now_ms);
    status.error_code = if covers.fetch_paused {
        Some("coverFetchPaused".to_owned())
    } else if covers.range_unavailable {
        Some("rangeUnavailable".to_owned())
    } else if covers.cover_unavailable {
        Some("coverUnavailable".to_owned())
    } else {
        None
    };
}

/// Takes the end of a scan one step further.
pub fn finish_step(status: &mut RemoteScanStatusDto, event: FinishEvent) -> (r: FinishAction)
    ensures
        ({
            let (action, set) = finish(event, old(status).status@, old(status).mode@);
            &&& r == action
            &&& match set {
                Some((state, code)) => final(status).status@ == state && opt_text(
                    final(status).error_code,
                ) == code,
                None => final(status).status == old(status).status && final(status).error_code
                    == old(status).error_code,
            }
        }),
        final(status).last_success_at == success_time(
            event,
            old(status).status@,
            old(status).mode@,
            old(status).last_success_at,
        ),
        finishes(*final(status), *old(status)),
{
    proof {
        reveal_strlit("complete");
        reveal_strlit("degraded");
        reveal_strlit("cancelled");
        assert("complete"@[0] != "degraded"@[0]);
        assert("complete"@[1] != "cancelled"@[1]);
    }
    match event {
        FinishEvent::Ended { failure, cancelled } => {
            if same(status.status.as_str(), "paused") || same(status.status.as_str(), "cancelled") {
                return FinishAction::Leave;
            }
            match failure {
                Some(error) => {
                    status.status = "degraded".to_owned();
                    status.error_code = Some(error_code(&error).to_owned());
                    FinishAction::DiscardAndStore
                },
                None => if cancelled {
                    status.status = "cancelled".to_owned();
                    status.error_code = Some("cancelled".to_owned());
                    FinishAction::DiscardAndStore
                } else {
                    FinishAction::Publish
                },
            }
        },
        FinishEvent::Published { ok } => {
            if ok {
                FinishAction::ConsumeCovers
            } else {
                status.status = "degraded".to_owned();
                status.error_code = Some("storage".to_owned());
                FinishAction::DiscardAndStore
            }
        },
        FinishEvent::Consumed { covers, cancelled, now_ms } => {
            if cancelled {
                status.status = "cancelled".to_owned();
                status.error_code = Some("cancelled".to_owned());
                FinishAction::DiscardAndStore
            } else if covers.storage_failed {
                status.status = "degraded".to_owned();
                status.error_code = Some("coverStorage".to_owned());
                FinishAction::Store
            } else if same(status.mode.as_str(), "full") {
                FinishAction::RecordBaseline
            } else {
                set_complete(status, covers, now_ms);
                FinishAction::Store
            }
        },
        FinishEvent::Baseline { recorded, covers, now_ms } => {
            if recorded {
                set_complete(status, covers, now_ms);
            } else {
                status.status = "degraded".to_owned();
                status.error_code = Some("scanBaselineStorage".to_owned());
            }
            FinishAction::Store
        },
    }
}

/// Shows that the covers of a published scan are handed on: none of them has
/// been processed, and nothing has failed.
pub fn begin_handing_covers_on(status: &mut RemoteScanStatusDto)
    ensures
        *final(status) == (RemoteScanStatusDto { processed: 0, error_code: None, ..*old(status) }),
{
    status.processed = 0;
    status.error_code = None;
}

/// A full scan is complete only where its proof has been recorded.
pub proof fn law_full_scan_completes_with_its_proof(event: FinishEvent, status: Seq<char>)
    requires
        finish(event, status, "full"@).1 is Some,
        (finish(event, status, "full"@).1->0).0 == "complete"@,
    ensures
        event matches FinishEvent::Baseline { recorded, .. } && recorded,
{
    reveal_strlit("complete");
    reveal_strlit("degraded");
    reveal_strlit("cancelled");
    assert("complete"@[0] != "degraded"@[0]);
    assert("complete"@[1] != "cancelled"@[1]);
}

/// What was staged survives only a scan that was published: whatever ends a
/// scan before that, or stops it, discards it.
pub proof fn law_unpublished_listings_are_discarded(
    event: FinishEvent,
    status: Seq<char>,
    mode: Seq<char>,
)
    ensures
        event is Ended ==> finish(event, status, mode).0 == FinishAction::Publish || finish(
            event,
            status,
            mode,
        ).0 == FinishAction::Leave || finish(event, status, mode).0
            == FinishAction::DiscardAndStore,
        (event matches FinishEvent::Published { ok } && !ok) ==> finish(event, status, mode).0
            == FinishAction::DiscardAndStore,
        (event matches FinishEvent::Consumed { cancelled, .. } && cancelled) ==> finish(
            event,
            status,
            mode,
        ).0 == FinishAction::DiscardAndStore,
{
}

/// An incremental scan follows only on a stored success with the proof of a
/// full scan, and never on a resumption.
pub proof fn law_incremental_needs_a_baseline(
    requested: Seq<char>,
    persisted_status: Option<Seq<char>>,
    has_full_baseline: bool,
    resume: bool,
)
    requires
        scan_mode(requested, persisted_status, has_full_baseline, resume) == "incremental"@,
    ensures
        requested == "incremental"@,
        persisted_status == Some("Succeeded"@),
        has_full_baseline,
        !resume,
{
    reveal_strlit("full");
    reveal_strlit("incremental");
    assert("full"@.len() != "incremental"@.len());
}

// ------------------------------------------------------------------
// What is stored, and what is shown of it later
// ------------------------------------------------------------------

/// The stored states of a scan.
#[derive(Debug, Clone, Copy, PartialEq, Eq, Structural)]
pub enum RemoteScanStatus {
    Running,
    Succeeded,
    Failed,
}

/// The stored modes of a scan.
#[derive(Debug, Clone, Copy, PartialEq, Eq, Structural)]
pub enum RemoteScanMode {
    Snapshot,
    Incremental,
}

/// What is stored of a scan.
pub struct RemoteScanState {
    pub source_id: String,
    pub status: RemoteScanStatus,
    pub mode: RemoteScanMode,
    pub generation: i64,
    pub checkpoint: Option<String>,
    pub last_success_at: Option<i64>,
    pub error_code: Option<String>,
}

/// The stored state for a shown one.
pub open spec fn stored_status(status: Seq<char>) -> RemoteScanStatus {
    if status == "complete"@ {
        RemoteScanStatus::Succeeded
    } else if status == "running"@ {
        RemoteScanStatus::Running
    } else {
        RemoteScanStatus::Failed
    }
}

/// What is stored of a scan.
pub fn persist_terminal(status: &RemoteScanStatusDto) -> (r: RemoteScanState)
    ensures
        r.source_id == status.source_id,
        r.status == stored_status(status.status@),
        r.mode == (if status.mode@ == "incremental"@ {
            RemoteScanMode::Incremental
        } else {
            RemoteScanMode::Snapshot
        }),
        r.generation == status.generation,
        r.checkpoint == status.checkpoint,
        r.last_success_at == status.last_success_at,
        r.error_code == status.error_code,
{
    let stored = if same(status.status.as_str(), "complete") {
        RemoteScanStatus::Succeeded
    } else if same(status.status.as_str(), "running") {
        RemoteScanStatus::Running
    } else {
        RemoteScanStatus::Failed
    };
    let mode = if same(status.mode.as_str(), "incremental") {
        RemoteScanMode::Incremental
    } else {
        RemoteScanMode::Snapshot
    };
    RemoteScanState {
        source_id: status.source_id.clone(),
        status: stored,
        mode,
        generation: status.generation,
        checkpoint: status.checkpoint.clone(),
        last_success_at: status.last_success_at,
        error_code: status.error_code.clone(),
    }
}

/// The session for which failed covers are looked at again when a scan is
/// complete: that of its generation, where it is still known.
pub fn compensation_session(status: &RemoteScanStatusDto, session_token: Option<i64>) -> (r: Option<
    u64,
>)
    ensures
        r is Some <==> status.status@ == "complete"@ && session_token is Some && session_token->0
            > 0,
        r matches Some(session) ==> session == session_token->0,
{
    if !same(status.status.as_str(), "complete") {
        return None;
    }
    match session_token {
        Some(token) => if token > 0 {
            Some(token as u64)
        } else {
            None
        },
        None => None,
    }
}

/// A stored scan, as it is read back.
pub struct StoredStatusRow {
    pub status: String,
    pub mode: String,
    pub generation: i64,
    pub checkpoint: Option<String>,
    pub last_success_at: Option<i64>,
    pub error_code: Option<String>,
}

/// The shown state of a stored scan before its baseline is looked at: the
/// state of its configuration, else what the stored state stands for.
pub open spec fn durable_status_text(stored: Seq<char>, config_status: Option<String>) -> Seq<char> {
    match config_status {
        Some(s) => s@,
        None => if stored == "Succeeded"@ {
            "complete"@
        } else if stored == "Running"@ {
            "running"@
        } else {
            "degraded"@
        },
    }
}

/// Whether a state claims success.
pub open spec fn claims_success(status: Seq<char>) -> bool {
    let t = lowered(stripped(status));
    t == "complete"@ || t == "completed"@ || t == "succeeded"@
}

/// Whether a full scan is required: success is claimed, and there is no
/// proof of a full scan.
pub open spec fn full_scan_required(status: Seq<char>, has_full_baseline: bool) -> bool {
    claims_success(status) && !has_full_baseline
}

/// What is shown of a stored scan: without the proof of a full one no
/// success is, and only a complete scan shows the progress of its covers.
pub fn durable_scan_status(
    source_id: String,
    row: StoredStatusRow,
    config_status: Option<String>,
    has_full_baseline: bool,
    progress: Option<(u64, u64)>,
) -> (r: RemoteScanStatusDto)
    ensures
        ({
            let text = durable_status_text(row.status@, config_status);
            let required = full_scan_required(text, has_full_baseline);
            &&& r.source_id == source_id
            &&& r.generation == row.generation
            &&& r.checkpoint == row.checkpoint
            &&& r.last_success_at == row.last_success_at
            &&& r.status@ == (if required {
                "degraded"@
            } else {
                text
            })
            &&& r.mode@ == (if !required && row.mode@ == "Incremental"@ {
                "incremental"@
            } else {
                "full"@
            })
            &&& opt_text(r.error_code) == (if required {
                Some("fullScanRequired"@)
            } else {
                opt_text(row.error_code)
            })
            &&& (r.total, r.processed) == (if r.status@ == "complete"@ && progress is Some {
                progress->0
            } else {
                (0u64, 0u64)
            })
            &&& r.listing_phase@ == "pending"@
        }),
{
    let status = match config_status {
        Some(s) => s,
        None => if same(row.status.as_str(), "Succeeded") {
            "complete".to_owned()
        } else if same(row.status.as_str(), "Running") {
            "running".to_owned()
        } else {
            "degraded".to_owned()
        },
    };
    let mode = if same(row.mode.as_str(), "Incremental") {
        "incremental".to_owned()
    } else {
        "full".to_owned()
    };
    let bare = trim(status.as_str(), CharClass::White);
    let t = ascii_lower(bare.as_str());
    let success = same(t.as_str(), "complete") || same(t.as_str(), "completed") || same(
        t.as_str(),
        "succeeded",
    );
    let mut dto = RemoteScanStatusDto::begin(
        source_id,
        status,
        mode,
        row.generation,
        row.checkpoint,
        row.last_success_at,
        row.error_code,
    );
    if success && !has_full_baseline {
        dto.status = "degraded".to_owned();
        dto.mode = "full".to_owned();
        dto.error_code = Some("fullScanRequired".to_owned());
    }
    if same(dto.status.as_str(), "complete") {
        match progress {
            Some((total, processed)) => {
                dto.total = total;
                dto.processed = processed;
            },
            None => {},
        }
    }
    dto
}

/// Whatever is stored, a scan without the proof of a full one is never shown
/// as complete.
pub proof fn law_no_success_without_a_baseline(stored: Seq<char>, config_status: Option<String>)
    ensures
        ({
            let text = durable_status_text(stored, config_status);
            text == "complete"@ ==> full_scan_required(text, false)
        }),
{
    reveal_strlit("complete");
    let t = "complete"@;
    assert(crate::text::trimmed_start(t, CharClass::White) == t);
    assert(crate::text::trimmed_end(t, CharClass::White) == t);
    assert(lowered(t) =~= t);
}

// ------------------------------------------------------------------
// How scans end
// ------------------------------------------------------------------

proof fn lemma_end_names_differ()
    ensures
        "complete"@ != "degraded"@,
        "complete"@ != "cancelled"@,
        "degraded"@ != "cancelled"@,
        "scanBaselineStorage"@ != "coverStorage"@,
        "scanBaselineStorage"@ != "storage"@,
        "scanBaselineStorage"@ != "cancelled"@,
        "scanBaselineStorage"@ != "coverFetchPaused"@,
        "scanBaselineStorage"@ != "rangeUnavailable"@,
        "scanBaselineStorage"@ != "coverUnavailable"@,
        "coverFetchPaused"@ != "rangeUnavailable"@,
        "coverFetchPaused"@ != "coverUnavailable"@,
        "rangeUnavailable"@ != "coverUnavailable"@,
{
    reveal_strlit("complete");
    reveal_strlit("degraded");
    reveal_strlit("cancelled");
    reveal_strlit("scanBaselineStorage");
    reveal_strlit("coverStorage");
    reveal_strlit("storage");
    reveal_strlit("coverFetchPaused");
    reveal_strlit("rangeUnavailable");
    reveal_strlit("coverUnavailable");
    assert("complete"@[0] == 'c' && "degraded"@[0] == 'd');
    assert("complete"@.len() == 8 && "degraded"@.len() == 8 && "cancelled"@.len() == 9);
    assert("scanBaselineStorage"@.len() == 19 && "coverStorage"@.len() == 12);
    assert("storage"@.len() == 7 && "coverFetchPaused"@.len() == 16);
    assert("rangeUnavailable"@.len() == 16 && "coverUnavailable"@.len() == 16);
    assert("coverFetchPaused"@[0] == 'c' && "rangeUnavailable"@[0] == 'r');
    assert("coverFetchPaused"@[5] == 'F' && "coverUnavailable"@[5] == 'U');
    assert("coverUnavailable"@[0] == 'c');
}

/// A scan that is not full, was not cancelled and whose covers were stored is
/// complete once they are handed on, whatever became of single covers: the
/// time of that is its last success. The code tells the first of these: that
/// fetching covers is paused, that a provider gave no parts of files, that a
/// cover was out of reach; where none of them holds there is none.
pub proof fn law_stored_covers_complete_a_scan(
    covers: CoverConsumeResult,
    now_ms: i64,
    status: Seq<char>,
    mode: Seq<char>,
    was: Option<i64>,
)
    requires
        mode != "full"@,
        !covers.storage_failed,
    ensures
        ({
            let event = FinishEvent::Consumed { covers, cancelled: false, now_ms };
            let (action, set) = finish(event, status, mode);
            &&& action == FinishAction::Store
            &&& set is Some
            &&& (set->0).0 == "complete"@
            &&& (set->0).1 is None <==> !covers.fetch_paused && !covers.range_unavailable
                && !covers.cover_unavailable
            &&& (set->0).1 == Some("coverFetchPaused"@) <==> covers.fetch_paused
            &&& (set->0).1 == Some("rangeUnavailable"@) <==> covers.range_unavailable
                && !covers.fetch_paused
            &&& (set->0).1 == Some("coverUnavailable"@) <==> covers.cover_unavailable
                && !covers.fetch_paused && !covers.range_unavailable
            &&& success_time(event, status, mode, was) == Some(now_ms)
        }),
{
    lemma_end_names_differ();
}

/// The proof of a full scan makes it complete at the time it was recorded,
/// with the code that a scan which is not full has for the same covers.
/// Where it was not recorded the scan is degraded, for that reason, and the
/// last success is the one before.
pub proof fn law_recorded_proof_completes_a_scan(
    covers: CoverConsumeResult,
    now_ms: i64,
    status: Seq<char>,
    mode: Seq<char>,
    other: Seq<char>,
    was: Option<i64>,
)
    requires
        other != "full"@,
        !covers.storage_failed,
    ensures
        ({
            let recorded = FinishEvent::Baseline { recorded: true, covers, now_ms };
            let lost = FinishEvent::Baseline { recorded: false, covers, now_ms };
            let consumed = FinishEvent::Consumed { covers, cancelled: false, now_ms };
            &&& finish(recorded, status, mode) == finish(consumed, status, other)
            &&& success_time(recorded, status, mode, was) == Some(now_ms)
            &&& finish(lost, status, mode).0 == FinishAction::Store
            &&& finish(lost, status, mode).1 is Some
            &&& (finish(lost, status, mode).1->0).0 == "degraded"@
            &&& (finish(lost, status, mode).1->0).1 == Some("scanBaselineStorage"@)
            &&& success_time(lost, status, mode, was) == was
            &&& finish(consumed, status, "full"@) == (
                FinishAction::RecordBaseline,
                None::<(Seq<char>, Option<Seq<char>>)>,
            )
            &&& success_time(consumed, status, "full"@, was) == was
        }),
{
    lemma_end_names_differ();
}

/// The degraded end for want of the proof of a full scan follows on a proof
/// that was not recorded and on nothing else after the engine has ended; a
/// failure of the engine ends a scan with the code of that failure.
pub proof fn law_lost_proof_alone_is_reported_so(
    event: FinishEvent,
    status: Seq<char>,
    mode: Seq<char>,
)
    requires
        finish(event, status, mode).1 is Some,
    ensures
        (event !is Ended && (finish(event, status, mode).1->0).1 == Some("scanBaselineStorage"@))
            <==> (event matches FinishEvent::Baseline { recorded, .. } && !recorded),
        (event matches FinishEvent::Ended { failure, .. } && failure is Some) ==> (finish(
            event,
            status,
            mode,
        ).1->0).1 == Some(stored_code(event->failure->0)),
        (event matches FinishEvent::Ended { failure, .. } && failure is None) ==> (finish(
            event,
            status,
            mode,
        ).1->0).1 == Some("cancelled"@),
{
    lemma_end_names_differ();
}

/// Each end of a scan comes on exactly these events: it is complete where the
/// covers of a scan that is not full were stored, or the proof of a full one
/// was recorded; cancelled where it was cancelled before that and nothing
/// had failed; degraded where the engine, the publication, the covers or the
/// proof failed.
pub proof fn law_each_end_has_its_events(event: FinishEvent, status: Seq<char>, mode: Seq<char>)
    ensures
        ({
            let set = finish(event, status, mode).1;
            let stopped = status == "paused"@ || status == "cancelled"@;
            &&& (set is Some && (set->0).0 == "complete"@) <==> match event {
                FinishEvent::Consumed { covers, cancelled, .. } => !cancelled
                    && !covers.storage_failed && mode != "full"@,
                FinishEvent::Baseline { recorded, .. } => recorded,
                _ => false,
            }
            &&& (set is Some && (set->0).0 == "cancelled"@) <==> match event {
                FinishEvent::Ended { failure, cancelled } => !stopped && failure is None
                    && cancelled,
                FinishEvent::Consumed { cancelled, .. } => cancelled,
                _ => false,
            }
            &&& (set is Some && (set->0).0 == "degraded"@) <==> match event {
                FinishEvent::Ended { failure, .. } => !stopped && failure is Some,
                FinishEvent::Published { ok } => !ok,
                FinishEvent::Consumed { covers, cancelled, .. } => !cancelled
                    && covers.storage_failed,
                FinishEvent::Baseline { recorded, .. } => !recorded,
            }
            &&& set is Some ==> (set->0).0 == "complete"@ || (set->0).0 == "cancelled"@ || (
            set->0).0 == "degraded"@
        }),
{
    lemma_end_names_differ();
}

/// A scan whose engine has ended well goes on by publishing, then by handing
/// its covers on, then, where it is full, by recording its proof; each comes
/// only where the one before was done. A scan that was paused or cancelled
/// meanwhile is left as it is.
pub proof fn law_each_step_follows_on_the_one_before(
    event: FinishEvent,
    status: Seq<char>,
    mode: Seq<char>,
)
    ensures
        ({
            let (action, set) = finish(event, status, mode);
            let stopped = status == "paused"@ || status == "cancelled"@;
            &&& action == FinishAction::Leave <==> event is Ended && stopped
            &&& action == FinishAction::Publish <==> !stopped && (
            event matches FinishEvent::Ended { failure, cancelled } && failure is None
                && !cancelled)
            &&& action == FinishAction::ConsumeCovers <==> (
            event matches FinishEvent::Published { ok } && ok)
            &&& action == FinishAction::RecordBaseline <==> mode == "full"@ && (
            event matches FinishEvent::Consumed { covers, cancelled, .. } && !cancelled
                && !covers.storage_failed)
            &&& action == FinishAction::DiscardAndStore <==> set is Some && (event is Ended
                || event is Published || (set->0).0 == "cancelled"@)
            &&& set is Some <==> action == FinishAction::Store || action
                == FinishAction::DiscardAndStore
        }),
{
    lemma_end_names_differ();
}

/// The last success of a scan is the time at which it was complete; no other
/// end moves it.
pub proof fn law_last_success_is_the_last_completion(
    event: FinishEvent,
    status: Seq<char>,
    mode: Seq<char>,
    was: Option<i64>,
)
    ensures
        ({
            let set = finish(event, status, mode).1;
            let after = success_time(event, status, mode, was);
            if set is Some && (set->0).0 == "complete"@ {
                match event {
                    FinishEvent::Consumed { now_ms, .. } => after == Some(now_ms),
                    FinishEvent::Baseline { now_ms, .. } => after == Some(now_ms),
                    _ => false,
                }
            } else {
                after == was
            }
        }),
{
    lemma_end_names_differ();
}

// ------------------------------------------------------------------
// How scans are asked for, planned and kept
// ------------------------------------------------------------------

/// A scan is asked for as full or incremental, of a source that is not a
/// directory of this or a neighbouring machine; every other request is
/// refused, for its mode first.
pub proof fn law_requests_are_refused_for_a_reason(mode: Seq<char>, kind: Seq<char>)
    ensures
        request_refusal(mode, kind) is None <==> (mode == "full"@ || mode == "incremental"@) && kind
            != "local"@ && kind != "smb"@,
        request_refusal(mode, kind) == Some("invalid scan mode"@) <==> mode != "full"@ && mode
            != "incremental"@,
        request_refusal(mode, kind) == Some("source is local-only"@) <==> (mode == "full"@ || mode
            == "incremental"@) && (kind == "local"@ || kind == "smb"@),
{
    reveal_strlit("invalid scan mode");
    reveal_strlit("source is local-only");
    assert("invalid scan mode"@.len() == 17 && "source is local-only"@.len() == 20);
}

/// A scan is run in the mode that was asked for where it is no resumption and
/// the last one succeeded with the proof of a full one; it is full otherwise.
pub proof fn law_scans_without_a_proof_are_full(
    requested: Seq<char>,
    persisted_status: Option<Seq<char>>,
    has_full_baseline: bool,
    resume: bool,
)
    ensures
        !resume && has_full_baseline && persisted_status == Some("Succeeded"@) ==> scan_mode(
            requested,
            persisted_status,
            has_full_baseline,
            resume,
        ) == requested,
        resume || !has_full_baseline || persisted_status != Some("Succeeded"@) ==> scan_mode(
            requested,
            persisted_status,
            has_full_baseline,
            resume,
        ) == "full"@,
{
}

/// The generations of a source are counted from one, each by one more than
/// the one before as long as numbers last.
pub proof fn law_generations_are_counted(stored: StoredScan)
    ensures
        next_generation(None) == 1,
        stored.generation < i64::MAX ==> next_generation(Some(stored)) == stored.generation + 1,
        stored.generation == i64::MAX ==> next_generation(Some(stored)) == i64::MAX,
{
}

/// Of the routes of one path the first is registered, and no other; they are
/// registered in their order.
pub proof fn law_first_routes_are_registered(rows: Seq<(String, String)>, n: int, k: int)
    requires
        0 <= n <= rows.len(),
    ensures
        first_routes(rows, n).contains(k) <==> 0 <= k < n && forall|j: int|
            0 <= j < k ==> (#[trigger] rows[j]).0@ != rows[k].0@,
        forall|a: int, b: int|
            0 <= a < b < first_routes(rows, n).len() ==> first_routes(rows, n)[a] < first_routes(
                rows,
                n,
            )[b],
        forall|a: int|
            0 <= a < first_routes(rows, n).len() ==> 0 <= #[trigger] first_routes(rows, n)[a] < n,
    decreases n,
{
    if n > 0 {
        law_first_routes_are_registered(rows, n - 1, k);
        let before = first_routes(rows, n - 1);
        let now = first_routes(rows, n);
        if unseen(rows, n - 1, rows[n - 1].0@) {
            assert(now == before.push(n - 1));
            if before.contains(k) {
                let i = choose|i: int| 0 <= i < before.len() && before[i] == k;
                assert(now[i] == k);
            }
            assert(now[before.len() as int] == n - 1);
            if now.contains(k) && k != n - 1 {
                let i = choose|i: int| 0 <= i < now.len() && now[i] == k;
                assert(before[i] == k);
            }
        } else {
            assert(!(forall|j: int| 0 <= j < n - 1 ==> (#[trigger] rows[j]).0@ != rows[n - 1].0@));
        }
    }
}

/// A complete scan is stored as a success and a running one as running; every
/// other end is stored as a failure. What is read back of it is shown as it
/// was, any failure as degraded, unless the configuration tells more.
pub proof fn law_stored_scans_are_shown_again(status: Seq<char>, stored: Seq<char>, told: String)
    ensures
        stored_status(status) is Succeeded <==> status == "complete"@,
        stored_status(status) is Running <==> status == "running"@,
        stored_status(status) is Failed <==> status != "complete"@ && status != "running"@,
        durable_status_text(stored, Some(told)) == told@,
        durable_status_text(stored, None) == "complete"@ <==> stored == "Succeeded"@,
        durable_status_text(stored, None) == "running"@ <==> stored == "Running"@,
        durable_status_text(stored, None) == "degraded"@ <==> stored != "Succeeded"@ && stored
            != "Running"@,
{
    reveal_strlit("complete");
    reveal_strlit("running");
    reveal_strlit("degraded");
    reveal_strlit("Succeeded");
    reveal_strlit("Running");
    assert("complete"@.len() == 8 && "running"@.len() == 7 && "degraded"@.len() == 8);
    assert("complete"@[0] == 'c' && "degraded"@[0] == 'd');
    assert("Succeeded"@.len() == 9 && "Running"@.len() == 7);
}

/// Success is claimed by these words in any ASCII case, whatever white space
/// stands around them, and without the proof of a full scan such a claim
/// asks for one.
pub proof fn law_claims_of_success_need_a_proof(
    before: Seq<char>,
    word: Seq<char>,
    behind: Seq<char>,
    has_full_baseline: bool,
)
    requires
        forall|i: int| 0 <= i < before.len() ==> CharClass::White.holds(#[trigger] before[i]),
        forall|i: int| 0 <= i < behind.len() ==> CharClass::White.holds(#[trigger] behind[i]),
        word.len() > 0,
        !CharClass::White.holds(word[0]),
        !CharClass::White.holds(word.last()),
    ensures
        full_scan_required(before + word + behind, has_full_baseline) <==> !has_full_baseline && (
        lowered(word) == "complete"@ || lowered(word) == "completed"@ || lowered(word)
            == "succeeded"@),
{
    law_trimming_finds_the_core(before, word, behind, CharClass::White);
}

/// The end of a scan changes its state, its code and its last success alone;
/// stopping it changes its state and its code alone.
pub proof fn law_endings_leave_the_rest(
    now: RemoteScanStatusDto,
    was: RemoteScanStatusDto,
    state: Seq<char>,
)
    ensures
        finishes(now, was) ==> ({
            &&& now.source_id == was.source_id
            &&& now.mode == was.mode
            &&& now.generation == was.generation
            &&& now.checkpoint == was.checkpoint
            &&& now.processed == was.processed
            &&& now.total == was.total
            &&& now.listing_phase == was.listing_phase
            &&& now.directories_checked == was.directories_checked
            &&& now.discovered_books == was.discovered_books
            &&& now.discovery_complete == was.discovery_complete
            &&& now.ready_books == was.ready_books
            &&& now.active_books == was.active_books
            &&& now.pending_books == was.pending_books
            &&& now.retry_books == was.retry_books
            &&& now.blocked_books == was.blocked_books
            &&& now.unsupported_books == was.unsupported_books
            &&& now.failed_books == was.failed_books
            &&& now.available_books == was.available_books
            &&& now.waiting_books == was.waiting_books
            &&& now.other_books == was.other_books
            &&& now.view_revision == was.view_revision
        }),
        stopped_status(now, was, state) ==> ({
            &&& now.status@ == state
            &&& now.error_code matches Some(code) && code@ == state
            &&& now.source_id == was.source_id
            &&& now.mode == was.mode
            &&& now.generation == was.generation
            &&& now.checkpoint == was.checkpoint
            &&& now.last_success_at == was.last_success_at
            &&& now.processed == was.processed
            &&& now.total == was.total
            &&& now.listing_phase == was.listing_phase
            &&& now.directories_checked == was.directories_checked
            &&& now.discovered_books == was.discovered_books
            &&& now.discovery_complete == was.discovery_complete
            &&& now.ready_books == was.ready_books
            &&& now.active_books == was.active_books
            &&& now.pending_books == was.pending_books
            &&& now.retry_books == was.retry_books
            &&& now.blocked_books == was.blocked_books
            &&& now.unsupported_books == was.unsupported_books
            &&& now.failed_books == was.failed_books
            &&& now.available_books == was.available_books
            &&& now.waiting_books == was.waiting_books
            &&& now.other_books == was.other_books
            &&& now.view_revision == was.view_revision
        }),
{
}

/// An entry that a caller listed is taken in with its name, size, time and
/// kind; it is known by its logical path, or by its own where it has none,
/// and to the provider by its own.
pub proof fn law_listed_entries_seed_the_scan(entry: RemoteEntry, from: InitialListingEntry)
    requires
        is_seeded(entry, from),
    ensures
        entry.name == from.name && entry.is_dir == from.is_dir && entry.size == from.size
            && entry.mtime == from.mtime && entry.asset_kind == from.asset_kind,
        entry.provider_path == Some(from.path),
        from.logical_path matches Some(path) ==> entry.logical_path == path,
        from.logical_path is None ==> entry.logical_path == from.path,
{
}

/// Jobs are named by their numbers, and different numbers name different
/// jobs. A job is active while it runs or is paused.
pub proof fn law_jobs_are_named_by_number(m: nat, n: nat, job: ScanJob)
    ensures
        job_name(n) == "remote-scan-"@ + decimal(n),
        job_name(m) == job_name(n) ==> m == n,
        job.active() <==> job.status.status@ == "running"@ || job.status.status@ == "paused"@,
{
    if job_name(m) == job_name(n) {
        let head = "remote-scan-"@;
        assert((head + decimal(m)).skip(head.len() as int) =~= decimal(m));
        assert((head + decimal(n)).skip(head.len() as int) =~= decimal(n));
        lemma_decimal_injective(m, n);
    }
}

} // verus!
