//! The progress of a scan and of the covers that follow it.

use vstd::prelude::*;
use vstd::string::*;

use crate::text::{list_has, listed, same};

verus! {

/// What is shown of a scan.
#[derive(Debug)]
pub struct RemoteScanStatusDto {
    pub source_id: String,
    pub status: String,
    pub mode: String,
    pub generation: i64,
    pub checkpoint: Option<String>,
    pub last_success_at: Option<i64>,
    pub error_code: Option<String>,
    pub processed: u64,
    pub total: u64,
    /// Discovery is separate from the readiness of covers; `processed` and
    /// `total` are kept for older clients.
    pub listing_phase: String,
    pub directories_checked: u64,
    pub discovered_books: u64,
    pub discovery_complete: bool,
    pub ready_books: u64,
    pub active_books: u64,
    pub pending_books: u64,
    pub retry_books: u64,
    pub blocked_books: u64,
    pub unsupported_books: u64,
    pub failed_books: u64,
    /// Ready books whose bytes are really there.
    pub available_books: u64,
    /// Books that wait: pending, waiting to be retried, stale, or without a job.
    pub waiting_books: u64,
    /// Books in a state that is not known.
    pub other_books: u64,
    pub view_revision: i64,
}

impl RemoteScanStatusDto {
    /// Whether no book has been counted yet.
    pub open spec fn counts_are_zero(&self) -> bool {
        &&& self.processed == 0 && self.total == 0 && self.directories_checked == 0
        &&& self.discovered_books == 0 && !self.discovery_complete && self.ready_books == 0
        &&& self.active_books == 0 && self.pending_books == 0 && self.retry_books == 0
        &&& self.blocked_books == 0 && self.unsupported_books == 0 && self.failed_books == 0
        &&& self.available_books == 0 && self.waiting_books == 0 && self.other_books == 0
        &&& self.view_revision == 0
    }

    /// A status with nothing counted.
    pub fn begin(
        source_id: String,
        status: String,
        mode: String,
        generation: i64,
        checkpoint: Option<String>,
        last_success_at: Option<i64>,
        error_code: Option<String>,
    ) -> (r: RemoteScanStatusDto)
        ensures
            r.source_id == source_id,
            r.status == status,
            r.mode == mode,
            r.generation == generation,
            r.checkpoint == checkpoint,
            r.last_success_at == last_success_at,
            r.error_code == error_code,
            r.listing_phase@ == "pending"@,
            r.counts_are_zero(),
    {
        RemoteScanStatusDto {
            source_id,
            status,
            mode,
            generation,
            checkpoint,
            last_success_at,
            error_code,
            processed: 0,
            total: 0,
            listing_phase: "pending".to_owned(),
            directories_checked: 0,
            discovered_books: 0,
            discovery_complete: false,
            ready_books: 0,
            active_books: 0,
            pending_books: 0,
            retry_books: 0,
            blocked_books: 0,
            unsupported_books: 0,
            failed_books: 0,
            available_books: 0,
            waiting_books: 0,
            other_books: 0,
            view_revision: 0,
        }
    }

    /// Whether everything that a count does not touch is the same.
    pub open spec fn same_scan(&self, other: RemoteScanStatusDto) -> bool {
        &&& self.source_id == other.source_id && self.status == other.status
        &&& self.mode == other.mode && self.generation == other.generation
        &&& self.checkpoint == other.checkpoint && self.last_success_at == other.last_success_at
        &&& self.error_code == other.error_code
        &&& self.available_books == other.available_books
        &&& self.waiting_books == other.waiting_books && self.other_books == other.other_books
    }
}

/// A cover job as it is stored.
pub struct CoverJobRow {
    pub asset_id: String,
    pub state: String,
    pub updated_at: i64,
    pub content_revision: String,
    pub selection_revision: String,
    pub profile: String,
    pub error_code: String,
}

// ------------------------------------------------------------------
// The current job of each asset
// ------------------------------------------------------------------

/// Whether row `j` takes precedence over row `i`: the same asset, and newer,
/// or as new and further down.
pub open spec fn supersedes(rows: Seq<CoverJobRow>, j: int, i: int) -> bool {
    rows[j].asset_id@ == rows[i].asset_id@ && (rows[j].updated_at > rows[i].updated_at || (
    rows[j].updated_at == rows[i].updated_at && j > i))
}

/// Whether row `i` is the current job of its asset.
pub open spec fn is_current(rows: Seq<CoverJobRow>, i: int) -> bool {
    forall|j: int| 0 <= j < rows.len() ==> !#[trigger] supersedes(rows, j, i)
}

/// The counted states of a cover.
#[derive(Clone, Copy, PartialEq, Eq, Structural)]
pub enum Bucket {
    Ready,
    Running,
    Pending,
    RetryWait,
    Blocked,
    Unsupported,
    Failed,
    Other,
}

/// Where a job is counted. A job that failed because its asset has no route
/// any more is no failure: it is counted among the others, as are states
/// that are not known.
pub open spec fn bucket_of(row: CoverJobRow) -> Bucket {
    let state = row.state@;
    if state == "ready"@ {
        Bucket::Ready
    } else if state == "running"@ {
        Bucket::Running
    } else if state == "pending"@ {
        Bucket::Pending
    } else if state == "retry_wait"@ {
        Bucket::RetryWait
    } else if state == "blocked"@ {
        Bucket::Blocked
    } else if state == "unsupported"@ {
        Bucket::Unsupported
    } else if state == "failed"@ && row.error_code@ != "route_missing"@ {
        Bucket::Failed
    } else {
        Bucket::Other
    }
}

/// How many of the first `n` rows are current and in the bucket.
pub open spec fn counted(rows: Seq<CoverJobRow>, n: int, bucket: Bucket) -> nat
    decreases n,
{
    if n <= 0 {
        0
    } else {
        counted(rows, n - 1, bucket) + if is_current(rows, n - 1) && bucket_of(rows[n - 1])
            == bucket {
            1nat
        } else {
            0nat
        }
    }
}

/// How many of the first `n` rows are current.
pub open spec fn counted_all(rows: Seq<CoverJobRow>, n: int) -> nat
    decreases n,
{
    if n <= 0 {
        0
    } else {
        counted_all(rows, n - 1) + if is_current(rows, n - 1) {
            1nat
        } else {
            0nat
        }
    }
}

fn bucket_of_row(row: &CoverJobRow) -> (r: Bucket)
    ensures
        r == bucket_of(*row),
{
    let state = row.state.as_str();
    if same(state, "ready") {
        Bucket::Ready
    } else if same(state, "running") {
        Bucket::Running
    } else if same(state, "pending") {
        Bucket::Pending
    } else if same(state, "retry_wait") {
        Bucket::RetryWait
    } else if same(state, "blocked") {
        Bucket::Blocked
    } else if same(state, "unsupported") {
        Bucket::Unsupported
    } else if same(state, "failed") && !same(row.error_code.as_str(), "route_missing") {
        Bucket::Failed
    } else {
        Bucket::Other
    }
}

fn row_is_current(rows: &Vec<CoverJobRow>, i: usize) -> (r: bool)
    requires
        i < rows.len(),
    ensures
        r == is_current(rows@, i as int),
{
    let mut j: usize = 0;
    while j < rows.len()
        invariant
            i < rows.len(),
            j <= rows.len(),
            forall|k: int| 0 <= k < j ==> !#[trigger] supersedes(rows@, k, i as int),
        decreases rows.len() - j,
    {
        let newer = rows[j].updated_at > rows[i].updated_at || (rows[j].updated_at
            == rows[i].updated_at && j > i);
        if newer && same(rows[j].asset_id.as_str(), rows[i].asset_id.as_str()) {
            assert(supersedes(rows@, j as int, i as int));
            return false;
        }
        j = j + 1;
    }
    true
}

/// The number of current jobs in each bucket.
pub struct BucketCounts {
    pub ready: u64,
    pub running: u64,
    pub pending: u64,
    pub retry_wait: u64,
    pub blocked: u64,
    pub unsupported: u64,
    pub failed: u64,
    pub other: u64,
}

impl BucketCounts {
    /// Whether these are the counts of the first `n` rows.
    pub open spec fn counts(&self, rows: Seq<CoverJobRow>, n: int) -> bool {
        &&& self.ready == counted(rows, n, Bucket::Ready)
        &&& self.running == counted(rows, n, Bucket::Running)
        &&& self.pending == counted(rows, n, Bucket::Pending)
        &&& self.retry_wait == counted(rows, n, Bucket::RetryWait)
        &&& self.blocked == counted(rows, n, Bucket::Blocked)
        &&& self.unsupported == counted(rows, n, Bucket::Unsupported)
        &&& self.failed == counted(rows, n, Bucket::Failed)
        &&& self.other == counted(rows, n, Bucket::Other)
    }
}

proof fn lemma_counted_bound(rows: Seq<CoverJobRow>, n: int, bucket: Bucket)
    requires
        0 <= n,
    ensures
        counted(rows, n, bucket) <= n,
    decreases n,
{
    if n > 0 {
        lemma_counted_bound(rows, n - 1, bucket);
    }
}

/// The identity of a cover that is ready.
pub struct ReadyIdentity {
    pub asset_id: String,
    pub content_revision: String,
    pub selection_revision: String,
    pub profile: String,
}

/// The positions, among the first `n` rows, of the current jobs that are
/// ready.
pub open spec fn ready_rows(rows: Seq<CoverJobRow>, n: int) -> Seq<int>
    decreases n,
{
    if n <= 0 {
        Seq::<int>::empty()
    } else if is_current(rows, n - 1) && bucket_of(rows[n - 1]) is Ready {
        ready_rows(rows, n - 1).push(n - 1)
    } else {
        ready_rows(rows, n - 1)
    }
}

/// Whether `identities` are those of the rows at `positions`.
pub open spec fn identities_of(
    identities: Seq<ReadyIdentity>,
    rows: Seq<CoverJobRow>,
    positions: Seq<int>,
) -> bool {
    &&& identities.len() == positions.len()
    &&& forall|k: int|
        0 <= k < positions.len() ==> {
            let row = rows[#[trigger] positions[k]];
            &&& identities[k].asset_id == row.asset_id
            &&& identities[k].content_revision == row.content_revision
            &&& identities[k].selection_revision == row.selection_revision
            &&& identities[k].profile == row.profile
        }
}

/// Counts the current jobs by state and lists those that are ready.
pub fn count_cover_jobs(rows: &Vec<CoverJobRow>) -> (r: (BucketCounts, Vec<ReadyIdentity>, u64))
    ensures
        r.0.counts(rows@, rows@.len() as int),
        identities_of(r.1@, rows@, ready_rows(rows@, rows@.len() as int)),
        r.2 == counted_all(rows@, rows@.len() as int),
{
    let mut c = BucketCounts {
        ready: 0,
        running: 0,
        pending: 0,
        retry_wait: 0,
        blocked: 0,
        unsupported: 0,
        failed: 0,
        other: 0,
    };
    let mut ready: Vec<ReadyIdentity> = Vec::new();
    let mut assets: u64 = 0;
    let mut i: usize = 0;
    while i < rows.len()
        invariant
            i <= rows.len(),
            c.counts(rows@, i as int),
            assets == counted_all(rows@, i as int),
            assets <= i,
            identities_of(ready@, rows@, ready_rows(rows@, i as int)),
        decreases rows.len() - i,
    {
        proof {
            lemma_counted_bound(rows@, i as int, Bucket::Ready);
            lemma_counted_bound(rows@, i as int, Bucket::Running);
            lemma_counted_bound(rows@, i as int, Bucket::Pending);
            lemma_counted_bound(rows@, i as int, Bucket::RetryWait);
            lemma_counted_bound(rows@, i as int, Bucket::Blocked);
            lemma_counted_bound(rows@, i as int, Bucket::Unsupported);
            lemma_counted_bound(rows@, i as int, Bucket::Failed);
            lemma_counted_bound(rows@, i as int, Bucket::Other);
        }
        if row_is_current(rows, i) {
            assets = assets + 1;
            match bucket_of_row(&rows[i]) {
                Bucket::Ready => {
                    c.ready = c.ready + 1;
                    let ghost before = ready@;
                    ready.push(
                        ReadyIdentity {
                            asset_id: rows[i].asset_id.clone(),
                            content_revision: rows[i].content_revision.clone(),
                            selection_revision: rows[i].selection_revision.clone(),
                            profile: rows[i].profile.clone(),
                        },
                    );
                },
                Bucket::Running => {
                    c.running = c.running + 1;
                },
                Bucket::Pending => {
                    c.pending = c.pending + 1;
                },
                Bucket::RetryWait => {
                    c.retry_wait = c.retry_wait + 1;
                },
                Bucket::Blocked => {
                    c.blocked = c.blocked + 1;
                },
                Bucket::Unsupported => {
                    c.unsupported = c.unsupported + 1;
                },
                Bucket::Failed => {
                    c.failed = c.failed + 1;
                },
                Bucket::Other => {
                    c.other = c.other + 1;
                },
            }
        }
        i = i + 1;
    }
    (c, ready, assets)
}

/// The buckets add up: every asset with a job is counted in exactly one.
pub proof fn law_buckets_add_up(rows: Seq<CoverJobRow>, n: int)
    ensures
        counted_all(rows, n) == counted(rows, n, Bucket::Ready) + counted(rows, n, Bucket::Running)
            + counted(rows, n, Bucket::Pending) + counted(rows, n, Bucket::RetryWait) + counted(
            rows,
            n,
            Bucket::Blocked,
        ) + counted(rows, n, Bucket::Unsupported) + counted(rows, n, Bucket::Failed) + counted(
            rows,
            n,
            Bucket::Other,
        ),
    decreases n,
{
    if n > 0 {
        law_buckets_add_up(rows, n - 1);
    }
}

/// Of the jobs of one asset exactly one is current.
pub proof fn law_one_current_job_per_asset(rows: Seq<CoverJobRow>, i: int)
    requires
        0 <= i < rows.len(),
    ensures
        exists|k: int|
            0 <= k < rows.len() && #[trigger] is_current(rows, k) && rows[k].asset_id@
                == rows[i].asset_id@,
        forall|k: int, m: int|
            0 <= k < rows.len() && 0 <= m < rows.len() && #[trigger] is_current(rows, k)
                && #[trigger] is_current(rows, m) && rows[k].asset_id@ == rows[m].asset_id@ ==> k
                == m,
{
    let k = lemma_current_exists(rows, i, rows.len() as int);
    assert(is_current(rows, k)) by {
        assert forall|j: int| 0 <= j < rows.len() implies !#[trigger] supersedes(rows, j, k) by {}
    }
    assert forall|k: int, m: int|
        0 <= k < rows.len() && 0 <= m < rows.len() && #[trigger] is_current(rows, k)
            && #[trigger] is_current(rows, m) && rows[k].asset_id@ == rows[m].asset_id@ implies k
        == m by {
        assert(!supersedes(rows, k, m));
        assert(!supersedes(rows, m, k));
    }
}

proof fn lemma_current_exists(rows: Seq<CoverJobRow>, i: int, n: int) -> (k: int)
    requires
        0 <= i < rows.len(),
        0 <= n <= rows.len(),
    ensures
        0 <= k < rows.len(),
        rows[k].asset_id@ == rows[i].asset_id@,
        forall|j: int| 0 <= j < n ==> !#[trigger] supersedes(rows, j, k),
    decreases n,
{
    if n == 0 {
        i
    } else {
        let k = lemma_current_exists(rows, i, n - 1);
        if supersedes(rows, n - 1, k) {
            assert forall|j: int| 0 <= j < n implies !#[trigger] supersedes(rows, j, n - 1) by {
                if j < n - 1 {
                    assert(!supersedes(rows, j, k));
                }
            }
            n - 1
        } else {
            k
        }
    }
}

// ------------------------------------------------------------------
// The counters of a status
// ------------------------------------------------------------------

/// What is stored of a scan, counted.
pub struct StoredCounts {
    pub published_directories: i64,
    pub staged_directories: i64,
    pub completed_directories: i64,
    pub indexed_books: i64,
    pub staged_books: u64,
    pub jobs: Vec<CoverJobRow>,
    pub view_revision: i64,
}

/// What the availability of covers is computed from.
pub struct AvailabilityInputs {
    pub tracked_distinct: u64,
    pub other_unknown: u64,
    pub ready: Vec<ReadyIdentity>,
    /// The staged books that `pending_books` stands for, where it does.
    pub staged_pending: Option<u64>,
}

/// A count that is not negative.
pub open spec fn count_of(n: i64) -> nat {
    if n > 0 {
        n as nat
    } else {
        0
    }
}

/// The larger of two numbers.
pub open spec fn larger(a: nat, b: nat) -> nat {
    if a >= b {
        a
    } else {
        b
    }
}

fn count_u64(n: i64) -> (r: u64)
    ensures
        r == count_of(n),
{
    if n > 0 {
        n as u64
    } else {
        0
    }
}

fn larger_u64(a: u64, b: u64) -> (r: u64)
    ensures
        r == larger(a as nat, b as nat),
{
    if a >= b {
        a
    } else {
        b
    }
}

/// Whether no job is counted under any state but the unknown ones.
pub open spec fn no_job_counted(rows: Seq<CoverJobRow>) -> bool {
    let n = rows.len() as int;
    &&& counted(rows, n, Bucket::Ready) == 0 && counted(rows, n, Bucket::Running) == 0
    &&& counted(rows, n, Bucket::Pending) == 0 && counted(rows, n, Bucket::RetryWait) == 0
    &&& counted(rows, n, Bucket::Blocked) == 0 && counted(rows, n, Bucket::Unsupported) == 0
    &&& counted(rows, n, Bucket::Failed) == 0
}

/// Whether staged books stand for pending ones: there are some, and no job
/// has been made of them yet.
pub open spec fn staged_only(stored: StoredCounts) -> bool {
    stored.staged_books > 0 && no_job_counted(stored.jobs@)
}

/// The directories that have been looked at: published or staged ones.
pub open spec fn directories_seen(stored: StoredCounts) -> nat {
    larger(count_of(stored.published_directories), count_of(stored.staged_directories))
}

/// The books that have been found: indexed or staged ones.
pub open spec fn books_found(stored: StoredCounts) -> nat {
    larger(count_of(stored.indexed_books), stored.staged_books as nat)
}

/// Whether discovery is complete: the scan has ended, and all directories
/// that were looked at are completely listed. An end alone proves nothing.
pub open spec fn discovery_is_complete(status: Seq<char>, stored: StoredCounts) -> bool {
    &&& status != "running"@ && status != "queued"@
    &&& directories_seen(stored) > 0
    &&& count_of(stored.completed_directories) == directories_seen(stored)
}

/// Whether `now` is the status `was` with its counters filled in, and `r`
/// what the counters leave to be looked up.
pub open spec fn counts_refreshed(
    was: RemoteScanStatusDto,
    now: RemoteScanStatusDto,
    stored: StoredCounts,
    r: AvailabilityInputs,
) -> bool {
    let rows = stored.jobs@;
    let n = rows.len() as int;
    &&& now.same_scan(was)
    &&& now.directories_checked == directories_seen(stored)
    &&& now.discovered_books == books_found(stored)
    &&& now.ready_books == counted(rows, n, Bucket::Ready)
    &&& now.active_books == counted(rows, n, Bucket::Running)
    &&& now.pending_books == (if staged_only(stored) {
        stored.staged_books as nat
    } else {
        counted(rows, n, Bucket::Pending)
    })
    &&& now.retry_books == counted(rows, n, Bucket::RetryWait)
    &&& now.blocked_books == counted(rows, n, Bucket::Blocked)
    &&& now.unsupported_books == counted(rows, n, Bucket::Unsupported)
    &&& now.failed_books == counted(rows, n, Bucket::Failed)
    &&& r.tracked_distinct == counted_all(rows, n)
    &&& r.other_unknown == counted(rows, n, Bucket::Other)
    &&& identities_of(r.ready@, rows, ready_rows(rows, n))
    &&& r.staged_pending == (if staged_only(stored) {
        Some(stored.staged_books)
    } else {
        None::<u64>
    })
    &&& now.view_revision == stored.view_revision
    &&& now.discovery_complete == discovery_is_complete(was.status@, stored)
    &&& now.listing_phase@ == (if now.discovery_complete {
        "complete"@
    } else if directories_seen(stored) > 0 {
        "scanning"@
    } else {
        "pending"@
    })
    &&& if books_found(stored) > 0 || directories_seen(stored) > 0 {
        now.total == books_found(stored) && now.processed == now.ready_books
    } else {
        now.total == was.total && now.processed == was.processed
    }
}

/// Fills in the counters of a status.
pub fn refresh_status_counts(status: &mut RemoteScanStatusDto, stored: StoredCounts) -> (r:
    AvailabilityInputs)
    ensures
        counts_refreshed(*old(status), *final(status), stored, r),
{
    let directories: u64 = larger_u64(
        count_u64(stored.published_directories),
        count_u64(stored.staged_directories),
    );
    let books: u64 = larger_u64(count_u64(stored.indexed_books), stored.staged_books);
    let (c, ready, assets) = count_cover_jobs(&stored.jobs);
    status.directories_checked = directories;
    status.discovered_books = books;
    status.ready_books = c.ready;
    status.active_books = c.running;
    status.pending_books = c.pending;
    status.retry_books = c.retry_wait;
    status.blocked_books = c.blocked;
    status.unsupported_books = c.unsupported;
    status.failed_books = c.failed;
    let mut staged_pending: Option<u64> = None;
    if stored.staged_books > 0 && c.ready == 0 && c.running == 0 && c.pending == 0 && c.retry_wait
        == 0 && c.blocked == 0 && c.unsupported == 0 && c.failed == 0 {
        status.pending_books = stored.staged_books;
        staged_pending = Some(stored.staged_books);
    }
    status.view_revision = stored.view_revision;
    let complete = !same(status.status.as_str(), "running") && !same(
        status.status.as_str(),
        "queued",
    ) && directories > 0 && count_u64(stored.completed_directories) == directories;
    status.discovery_complete = complete;
    status.listing_phase = if complete {
        "complete".to_owned()
    } else if directories > 0 {
        "scanning".to_owned()
    } else {
        "pending".to_owned()
    };
    if books > 0 || directories > 0 {
        status.total = books;
        status.processed = status.ready_books;
    }
    AvailabilityInputs { tracked_distinct: assets, other_unknown: c.other, ready, staged_pending }
}

/// Fills in the counters of a status while its covers are taken in: what is
/// staged counts as well, and the total never shrinks on its account.
pub fn refresh_cover_progress(
    status: &mut RemoteScanStatusDto,
    staged_covers: Option<u64>,
    stored: StoredCounts,
) -> (r: AvailabilityInputs)
    ensures
        ({
            let raised = match staged_covers {
                Some(n) => larger(old(status).total as nat, n as nat) as u64,
                None => old(status).total,
            };
            counts_refreshed(
                (RemoteScanStatusDto { total: raised, ..*old(status) }),
                *final(status),
                stored,
                r,
            )
        }),
{
    match staged_covers {
        Some(n) => {
            status.total = larger_u64(status.total, n);
        },
        None => {},
    }
    refresh_status_counts(status, stored)
}

// ------------------------------------------------------------------
// The progress that survives a restart
// ------------------------------------------------------------------

/// A cover dependency of a book, and whether its path is still in the index.
pub struct DependencyRow {
    pub book_key: String,
    pub status: String,
    pub live: bool,
}

/// Whether a dependency counts as a book: it is live and no mere alias.
pub open spec fn is_canonical(row: DependencyRow) -> bool {
    row.live && row.status@ != "cache_alias"@
}

/// Whether a dependency has something to show.
pub open spec fn is_shown(row: DependencyRow) -> bool {
    is_canonical(row) && (row.status@ == "partial_ready"@ || row.status@ == "placeholder"@)
}

/// The keys of the books that count.
pub open spec fn canonical_keys(rows: Seq<DependencyRow>, n: int) -> Set<Seq<char>> {
    Set::new(
        |key: Seq<char>|
            exists|i: int|
                0 <= i < n && #[trigger] is_canonical(rows[i]) && rows[i].book_key@ == key,
    )
}

/// The keys of the books that have something to show.
pub open spec fn shown_keys(rows: Seq<DependencyRow>, n: int) -> Set<Seq<char>> {
    Set::new(
        |key: Seq<char>|
            exists|i: int| 0 <= i < n && #[trigger] is_shown(rows[i]) && rows[i].book_key@ == key,
    )
}

/// Whether `keys` lists a set of keys, each once.
pub open spec fn lists(keys: Seq<String>, set: Set<Seq<char>>) -> bool {
    &&& set.finite()
    &&& set.len() == keys.len()
    &&& forall|key: Seq<char>| #[trigger] set.contains(key) <==> listed(keys, key)
}

fn add_key(keys: &mut Vec<String>, key: &String, Ghost(set): Ghost<Set<Seq<char>>>)
    requires
        lists(old(keys)@, set),
    ensures
        lists(final(keys)@, set.insert(key@)),
{
    if list_has(keys, key.as_str()) {
        assert(set.contains(key@));
        assert(set.insert(key@) =~= set);
    } else {
        assert(!set.contains(key@));
        let ghost before = keys@;
        keys.push(key.clone());
        proof {
            assert forall|k: Seq<char>| #[trigger] set.insert(key@).contains(k) <==> listed(
                keys@,
                k,
            ) by {
                if k == key@ {
                    assert(keys@[before.len() as int]@ == k);
                } else {
                    if listed(before, k) {
                        let i = choose|i: int| 0 <= i < before.len() && #[trigger] before[i]@ == k;
                        assert(keys@[i]@ == k);
                    }
                    if listed(keys@, k) {
                        let i = choose|i: int| 0 <= i < keys@.len() && #[trigger] keys@[i]@ == k;
                        assert(i < before.len());
                        assert(before[i]@ == k);
                    }
                    assert(set.contains(k) <==> listed(before, k));
                }
            }
        }
    }
}

/// The number of books and of those with something to show: each book
/// counts once, aliases and dead paths do not.
pub fn durable_cover_progress(rows: &Vec<DependencyRow>) -> (r: (u64, u64))
    ensures
        r.0 == canonical_keys(rows@, rows@.len() as int).len(),
        r.1 == shown_keys(rows@, rows@.len() as int).len(),
{
    let mut all: Vec<String> = Vec::new();
    let mut shown: Vec<String> = Vec::new();
    let mut i: usize = 0;
    assert(canonical_keys(rows@, 0) =~= Set::<Seq<char>>::empty());
    assert(shown_keys(rows@, 0) =~= Set::<Seq<char>>::empty());
    while i < rows.len()
        invariant
            i <= rows.len(),
            lists(all@, canonical_keys(rows@, i as int)),
            lists(shown@, shown_keys(rows@, i as int)),
        decreases rows.len() - i,
    {
        let row = &rows[i];
        let ghost c0 = canonical_keys(rows@, i as int);
        let ghost s0 = shown_keys(rows@, i as int);
        let canonical = row.live && !same(row.status.as_str(), "cache_alias");
        let with_cover = canonical && (same(row.status.as_str(), "partial_ready") || same(
            row.status.as_str(),
            "placeholder",
        ));
        if canonical {
            add_key(&mut all, &row.book_key, Ghost(c0));
        }
        if with_cover {
            add_key(&mut shown, &row.book_key, Ghost(s0));
        }
        proof {
            lemma_keys_step(rows@, i as int);
        }
        i = i + 1;
    }
    (all.len() as u64, shown.len() as u64)
}

proof fn lemma_keys_step(rows: Seq<DependencyRow>, i: int)
    requires
        0 <= i < rows.len(),
    ensures
        canonical_keys(rows, i + 1) == (if is_canonical(rows[i]) {
            canonical_keys(rows, i).insert(rows[i].book_key@)
        } else {
            canonical_keys(rows, i)
        }),
        shown_keys(rows, i + 1) == (if is_shown(rows[i]) {
            shown_keys(rows, i).insert(rows[i].book_key@)
        } else {
            shown_keys(rows, i)
        }),
{
    let c1 = canonical_keys(rows, i + 1);
    let s1 = shown_keys(rows, i + 1);
    assert forall|key: Seq<char>| c1.contains(key) == (canonical_keys(rows, i).contains(key) || (
    is_canonical(rows[i]) && rows[i].book_key@ == key)) by {
        if c1.contains(key) {
            let j = choose|j: int|
                0 <= j < i + 1 && #[trigger] is_canonical(rows[j]) && rows[j].book_key@ == key;
            if j < i {
                assert(canonical_keys(rows, i).contains(key));
            }
        }
    }
    assert forall|key: Seq<char>| s1.contains(key) == (shown_keys(rows, i).contains(key) || (
    is_shown(rows[i]) && rows[i].book_key@ == key)) by {
        if s1.contains(key) {
            let j = choose|j: int|
                0 <= j < i + 1 && #[trigger] is_shown(rows[j]) && rows[j].book_key@ == key;
            if j < i {
                assert(shown_keys(rows, i).contains(key));
            }
        }
    }
    if is_canonical(rows[i]) {
        assert(c1 =~= canonical_keys(rows, i).insert(rows[i].book_key@));
    } else {
        assert(c1 =~= canonical_keys(rows, i));
    }
    if is_shown(rows[i]) {
        assert(s1 =~= shown_keys(rows, i).insert(rows[i].book_key@));
    } else {
        assert(s1 =~= shown_keys(rows, i));
    }
}

// ------------------------------------------------------------------
// What the counts mean
// ------------------------------------------------------------------

/// The current job of an asset is its newest; of those stored at one time it
/// is the last.
pub proof fn law_current_job_is_the_newest(rows: Seq<CoverJobRow>, i: int)
    requires
        0 <= i < rows.len(),
    ensures
        is_current(rows, i) <==> forall|j: int|
            0 <= j < rows.len() && (#[trigger] rows[j]).asset_id@ == rows[i].asset_id@
                ==> rows[j].updated_at < rows[i].updated_at || (rows[j].updated_at
                == rows[i].updated_at && j <= i),
{
    if is_current(rows, i) {
        assert forall|j: int|
            0 <= j < rows.len() && (#[trigger] rows[j]).asset_id@ == rows[i].asset_id@ implies rows[j].updated_at
            < rows[i].updated_at || (rows[j].updated_at == rows[i].updated_at && j <= i) by {
            assert(!supersedes(rows, j, i));
        }
    }
    if forall|j: int|
        0 <= j < rows.len() && (#[trigger] rows[j]).asset_id@ == rows[i].asset_id@
            ==> rows[j].updated_at < rows[i].updated_at || (rows[j].updated_at
            == rows[i].updated_at && j <= i) {
        assert forall|j: int| 0 <= j < rows.len() implies !#[trigger] supersedes(rows, j, i) by {
            assert(rows[j].asset_id@ == rows[j].asset_id@);
        }
    }
}

/// A job is counted under the state that is stored for it; one that failed
/// for want of a route, and every state that is not known, among the others.
pub proof fn law_jobs_are_counted_under_their_state(row: CoverJobRow)
    ensures
        bucket_of(row) is Ready <==> row.state@ == "ready"@,
        bucket_of(row) is Running <==> row.state@ == "running"@,
        bucket_of(row) is Pending <==> row.state@ == "pending"@,
        bucket_of(row) is RetryWait <==> row.state@ == "retry_wait"@,
        bucket_of(row) is Blocked <==> row.state@ == "blocked"@,
        bucket_of(row) is Unsupported <==> row.state@ == "unsupported"@,
        bucket_of(row) is Failed <==> row.state@ == "failed"@ && row.error_code@
            != "route_missing"@,
        row.state@ == "failed"@ && row.error_code@ == "route_missing"@ ==> bucket_of(row) is Other,
        row.state@ != "ready"@ && row.state@ != "running"@ && row.state@ != "pending"@
            && row.state@ != "retry_wait"@ && row.state@ != "blocked"@ && row.state@
            != "unsupported"@ && row.state@ != "failed"@ ==> bucket_of(row) is Other,
{
    reveal_strlit("pending");
    reveal_strlit("running");
    reveal_strlit("ready");
    reveal_strlit("retry_wait");
    reveal_strlit("blocked");
    reveal_strlit("unsupported");
    reveal_strlit("failed");
    assert("pending"@.len() == 7 && "running"@.len() == 7 && "blocked"@.len() == 7);
    assert("ready"@.len() == 5 && "retry_wait"@.len() == 10 && "unsupported"@.len() == 11);
    assert("failed"@.len() == 6);
    assert("pending"@[0] == 'p' && "running"@[0] == 'r' && "blocked"@[0] == 'b');
}

/// The count of a state is the number of current jobs in it, and the count of
/// all that of the current jobs.
pub proof fn law_counts_are_numbers_of_jobs(rows: Seq<CoverJobRow>, n: int, bucket: Bucket)
    ensures
        Set::new(
            |i: int| 0 <= i < n && is_current(rows, i) && bucket_of(rows[i]) == bucket,
        ).finite(),
        counted(rows, n, bucket) == Set::new(
            |i: int| 0 <= i < n && is_current(rows, i) && bucket_of(rows[i]) == bucket,
        ).len(),
        Set::new(|i: int| 0 <= i < n && is_current(rows, i)).finite(),
        counted_all(rows, n) == Set::new(|i: int| 0 <= i < n && is_current(rows, i)).len(),
    decreases n,
{
    let one = Set::new(|i: int| 0 <= i < n && is_current(rows, i) && bucket_of(rows[i]) == bucket);
    let all = Set::new(|i: int| 0 <= i < n && is_current(rows, i));
    if n <= 0 {
        assert(one =~= Set::<int>::empty());
        assert(all =~= Set::<int>::empty());
    } else {
        law_counts_are_numbers_of_jobs(rows, n - 1, bucket);
        let one_less = Set::new(
            |i: int| 0 <= i < n - 1 && is_current(rows, i) && bucket_of(rows[i]) == bucket,
        );
        let all_less = Set::new(|i: int| 0 <= i < n - 1 && is_current(rows, i));
        if is_current(rows, n - 1) && bucket_of(rows[n - 1]) == bucket {
            assert(one =~= one_less.insert(n - 1));
        } else {
            assert(one =~= one_less);
        }
        if is_current(rows, n - 1) {
            assert(all =~= all_less.insert(n - 1));
        } else {
            assert(all =~= all_less);
        }
    }
}

/// The ready covers are those of the current jobs that are ready, in their
/// order.
pub proof fn law_ready_covers_are_current_and_ready(rows: Seq<CoverJobRow>, n: int, i: int)
    ensures
        ready_rows(rows, n).contains(i) <==> 0 <= i < n && is_current(rows, i) && rows[i].state@
            == "ready"@,
        forall|a: int, b: int|
            0 <= a < b < ready_rows(rows, n).len() ==> ready_rows(rows, n)[a] < ready_rows(
                rows,
                n,
            )[b],
        forall|a: int|
            0 <= a < ready_rows(rows, n).len() ==> 0 <= #[trigger] ready_rows(rows, n)[a] < n,
        ready_rows(rows, n).len() == counted(rows, n, Bucket::Ready),
    decreases n,
{
    if n > 0 {
        law_ready_covers_are_current_and_ready(rows, n - 1, i);
        law_jobs_are_counted_under_their_state(rows[n - 1]);
        let before = ready_rows(rows, n - 1);
        let now = ready_rows(rows, n);
        if is_current(rows, n - 1) && bucket_of(rows[n - 1]) is Ready {
            assert(now == before.push(n - 1));
            if before.contains(i) {
                let k = choose|k: int| 0 <= k < before.len() && before[k] == i;
                assert(now[k] == i);
            }
            assert(now[before.len() as int] == n - 1);
            if now.contains(i) && i != n - 1 {
                let k = choose|k: int| 0 <= k < now.len() && now[k] == i;
                assert(before[k] == i);
            }
        }
    }
}

/// Discovery is complete where the scan neither runs nor waits, at least one
/// directory was looked at, and as many are completely listed as were looked
/// at, published or staged, whichever are more.
pub proof fn law_discovery_is_complete_when_all_is_listed(status: Seq<char>, stored: StoredCounts)
    ensures
        ({
            let seen: int = if stored.published_directories >= stored.staged_directories {
                stored.published_directories as int
            } else {
                stored.staged_directories as int
            };
            &&& discovery_is_complete(status, stored) <==> status != "running"@ && status
                != "queued"@ && seen > 0 && stored.completed_directories == seen
            &&& directories_seen(stored) == (if seen > 0 {
                seen
            } else {
                0
            })
        }),
{
}

/// What is shown of a scan after counting: its listing is complete, goes on
/// or has not begun; as many books as are indexed or staged, whichever are
/// more; of these as processed the ready ones. Staged books wait where no job
/// is counted yet. Nothing is shown as found before anything was.
pub proof fn law_shown_counts_follow_what_is_stored(
    was: RemoteScanStatusDto,
    now: RemoteScanStatusDto,
    stored: StoredCounts,
    r: AvailabilityInputs,
)
    requires
        counts_refreshed(was, now, stored, r),
    ensures
        now.status@ == was.status@ && now.error_code == was.error_code && now.generation
            == was.generation && now.last_success_at == was.last_success_at,
        now.discovered_books == (if stored.indexed_books > stored.staged_books {
            stored.indexed_books as int
        } else {
            stored.staged_books as int
        }),
        now.listing_phase@ == "complete"@ <==> now.discovery_complete,
        now.listing_phase@ == "scanning"@ <==> !now.discovery_complete && (
        stored.published_directories > 0 || stored.staged_directories > 0),
        now.listing_phase@ == "pending"@ <==> !now.discovery_complete
            && stored.published_directories <= 0 && stored.staged_directories <= 0,
        stored.indexed_books > 0 || stored.staged_books > 0 || stored.published_directories > 0
            || stored.staged_directories > 0 ==> now.total == now.discovered_books && now.processed
            == now.ready_books,
        stored.indexed_books <= 0 && stored.staged_books == 0 && stored.published_directories <= 0
            && stored.staged_directories <= 0 ==> now.total == was.total && now.processed
            == was.processed,
        stored.jobs@.len() == 0 ==> now.pending_books == stored.staged_books && now.ready_books == 0
            && now.active_books == 0 && now.failed_books == 0,
        r.staged_pending is Some ==> now.pending_books == stored.staged_books,
        r.staged_pending is None ==> now.ready_books + now.active_books + now.pending_books
            + now.retry_books + now.blocked_books + now.unsupported_books + now.failed_books
            + r.other_unknown == r.tracked_distinct,
        r.ready@.len() == now.ready_books,
{
    reveal_strlit("complete");
    reveal_strlit("scanning");
    reveal_strlit("pending");
    assert("complete"@.len() == 8 && "scanning"@.len() == 8 && "pending"@.len() == 7);
    assert("complete"@[0] == 'c' && "scanning"@[0] == 's');
    let rows = stored.jobs@;
    let n = rows.len() as int;
    law_buckets_add_up(rows, n);
    law_ready_covers_are_current_and_ready(rows, n, 0);
}

/// Of the dependencies of covers those count whose path is in the index and
/// which are no alias; of these a partly ready cover and a placeholder have
/// something to show. Each book counts once.
pub proof fn law_books_with_covers_count_once(rows: Seq<DependencyRow>, n: int, key: Seq<char>)
    ensures
        canonical_keys(rows, n).contains(key) <==> exists|i: int|
            0 <= i < n && (#[trigger] rows[i]).book_key@ == key && rows[i].live && rows[i].status@
                != "cache_alias"@,
        shown_keys(rows, n).contains(key) <==> exists|i: int|
            0 <= i < n && (#[trigger] rows[i]).book_key@ == key && rows[i].live && (rows[i].status@
                == "partial_ready"@ || rows[i].status@ == "placeholder"@),
        shown_keys(rows, n).subset_of(canonical_keys(rows, n)),
{
    reveal_strlit("cache_alias");
    reveal_strlit("partial_ready");
    reveal_strlit("placeholder");
    assert("cache_alias"@[0] == 'c' && "partial_ready"@[0] == 'p' && "placeholder"@[0] == 'p');
    if canonical_keys(rows, n).contains(key) {
        let i = choose|i: int|
            0 <= i < n && #[trigger] is_canonical(rows[i]) && rows[i].book_key@ == key;
        assert(rows[i].book_key@ == key);
    }
    if exists|i: int|
        0 <= i < n && (#[trigger] rows[i]).book_key@ == key && rows[i].live && rows[i].status@
            != "cache_alias"@ {
        let i = choose|i: int|
            0 <= i < n && (#[trigger] rows[i]).book_key@ == key && rows[i].live && rows[i].status@
                != "cache_alias"@;
        assert(is_canonical(rows[i]));
    }
    if shown_keys(rows, n).contains(key) {
        let i = choose|i: int|
            0 <= i < n && #[trigger] is_shown(rows[i]) && rows[i].book_key@ == key;
        assert(rows[i].book_key@ == key);
    }
    if exists|i: int|
        0 <= i < n && (#[trigger] rows[i]).book_key@ == key && rows[i].live && (rows[i].status@
            == "partial_ready"@ || rows[i].status@ == "placeholder"@) {
        let i = choose|i: int|
            0 <= i < n && (#[trigger] rows[i]).book_key@ == key && rows[i].live && (rows[i].status@
                == "partial_ready"@ || rows[i].status@ == "placeholder"@);
        assert(is_shown(rows[i]));
    }
    assert forall|k: Seq<char>| #[trigger] shown_keys(rows, n).contains(k) implies canonical_keys(
        rows,
        n,
    ).contains(k) by {
        let i = choose|i: int| 0 <= i < n && #[trigger] is_shown(rows[i]) && rows[i].book_key@ == k;
        assert(is_canonical(rows[i]));
    }
}

/// A status with nothing counted has only zeros; counting leaves the scan
/// itself as it is.
pub proof fn law_counting_leaves_the_scan(now: RemoteScanStatusDto, was: RemoteScanStatusDto)
    ensures
        now.counts_are_zero() ==> ({
            &&& now.processed == 0
            &&& now.total == 0
            &&& now.directories_checked == 0
            &&& now.discovered_books == 0
            &&& now.ready_books == 0
            &&& now.active_books == 0
            &&& now.pending_books == 0
            &&& now.retry_books == 0
            &&& now.blocked_books == 0
            &&& now.unsupported_books == 0
            &&& now.failed_books == 0
            &&& now.available_books == 0
            &&& now.waiting_books == 0
            &&& now.other_books == 0
            &&& now.view_revision == 0
            &&& !now.discovery_complete
        }),
        now.same_scan(was) ==> ({
            &&& now.source_id == was.source_id
            &&& now.status == was.status
            &&& now.mode == was.mode
            &&& now.generation == was.generation
            &&& now.checkpoint == was.checkpoint
            &&& now.last_success_at == was.last_success_at
            &&& now.error_code == was.error_code
            &&& now.available_books == was.available_books
            &&& now.waiting_books == was.waiting_books
            &&& now.other_books == was.other_books
        }),
{
}

/// The identity of a ready cover is that of its job.
pub proof fn law_ready_covers_have_their_identity(
    identities: Seq<ReadyIdentity>,
    rows: Seq<CoverJobRow>,
    positions: Seq<int>,
    k: int,
)
    requires
        identities_of(identities, rows, positions),
        0 <= k < positions.len(),
    ensures
        identities.len() == positions.len(),
        identities[k].asset_id == rows[positions[k]].asset_id,
        identities[k].content_revision == rows[positions[k]].content_revision,
        identities[k].selection_revision == rows[positions[k]].selection_revision,
        identities[k].profile == rows[positions[k]].profile,
{
    let at = positions[k];
}

} // verus!
