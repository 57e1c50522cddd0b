//! What is shown of the synchronisation between devices.

use vstd::prelude::*;
use vstd::string::*;

use crate::number::{decimal_int, law_signed_decimal_reads_back, parse_i64, signed_value};
use crate::order::{
    keys_of, law_stable_order_sorts_and_keeps, plain_key, plain_key_of, plain_keys, stable_order,
    stable_order_of, text_le, the_order, Token,
};
use crate::text::{or_empty, text_or_empty};

verus! {

/// How many rows of an entity have changed.
pub struct EntityCountDto {
    pub entity: String,
    pub count: i64,
}

/// Where the changes of a run came from, and where they went.
pub struct SyncCounts {
    pub local: usize,
    pub remote: usize,
    pub merged: usize,
    pub deleted: usize,
}

/// What a run has done. The plan is given in JSON, or not at all where it
/// could not be written.
pub struct SyncOutcome {
    pub initialized: bool,
    pub revision: i64,
    pub changed_entities: Vec<(String, usize)>,
    pub counts: SyncCounts,
    pub plan_json: Option<String>,
}

/// What is shown of a run.
pub struct SyncOutcomeDto {
    pub initialized: bool,
    pub revision: i64,
    pub changed_entities: Vec<EntityCountDto>,
    pub pull_count: i64,
    pub push_count: i64,
    pub merge_count: i64,
    pub deleted_count: i64,
    pub plan_json: String,
}

/// The names of the entities that have changed.
pub open spec fn entity_names(changed: Seq<(String, usize)>) -> Seq<Seq<char>> {
    Seq::new(changed.len(), |i: int| changed[i].0@)
}

impl SyncOutcome {
    /// Whether every count has a place in what is shown.
    pub open spec fn fits(&self) -> bool {
        &&& self.counts.local + self.counts.merged + self.counts.deleted <= i64::MAX
        &&& self.counts.local + self.counts.merged + self.counts.deleted <= usize::MAX
        &&& self.counts.remote <= i64::MAX
        &&& forall|i: int|
            0 <= i < self.changed_entities@.len() ==> (#[trigger] self.changed_entities@[i]).1
                <= i64::MAX
    }
}

/// What is shown of a run: the entities in the order of their names, and
/// everything but what was pulled as pushed.
pub fn sync_now(outcome: &SyncOutcome) -> (r: SyncOutcomeDto)
    requires
        outcome.fits(),
    ensures
        r.initialized == outcome.initialized,
        r.revision == outcome.revision,
        r.changed_entities.len() == outcome.changed_entities.len(),
        stable_order_of(
            the_order(plain_keys(entity_names(outcome.changed_entities@))),
            plain_keys(entity_names(outcome.changed_entities@)),
            outcome.changed_entities@.len() as int,
        ),
        forall|k: int|
            0 <= k < r.changed_entities.len() ==> {
                let from = outcome.changed_entities@[the_order(
                    plain_keys(entity_names(outcome.changed_entities@)),
                )[k] as int];
                (#[trigger] r.changed_entities@[k]).entity == from.0 && r.changed_entities@[k].count
                    == from.1
            },
        r.pull_count == outcome.counts.remote,
        r.push_count == outcome.counts.local + outcome.counts.merged + outcome.counts.deleted,
        r.merge_count == outcome.counts.merged,
        r.deleted_count == outcome.counts.deleted,
        r.plan_json@ == (match outcome.plan_json {
            Some(text) => text@,
            None => "[]"@,
        }),
{
    let changed = &outcome.changed_entities;
    let ghost keys = plain_keys(entity_names(changed@));
    let mut list: Vec<Vec<Token>> = Vec::new();
    let mut i: usize = 0;
    while i < changed.len()
        invariant
            keys == plain_keys(entity_names(changed@)),
            i <= changed.len(),
            list.len() == i,
            forall|j: int| 0 <= j < i ==> (#[trigger] list@[j])@ == keys[j],
        decreases changed.len() - i,
    {
        let key = plain_key_of(changed[i].0.as_str());
        assert(keys[i as int] == key@);
        list.push(key);
        i = i + 1;
    }
    assert(keys_of(list@) =~= keys);
    let order = stable_order(&list);
    let mut shown: Vec<EntityCountDto> = Vec::new();
    let mut k: usize = 0;
    while k < order.len()
        invariant
            outcome.fits(),
            *changed == outcome.changed_entities,
            order@ == the_order(keys),
            stable_order_of(order@, keys, changed@.len() as int),
            k <= order.len(),
            shown.len() == k,
            forall|j: int|
                0 <= j < k ==> (#[trigger] shown@[j]).entity == changed@[order@[j] as int].0
                    && shown@[j].count == changed@[order@[j] as int].1,
        decreases order.len() - k,
    {
        assert(order@[k as int] < changed@.len());
        let from = &changed[order[k]];
        assert(changed@[order@[k as int] as int].1 <= i64::MAX);
        shown.push(EntityCountDto { entity: from.0.clone(), count: from.1 as i64 });
        k = k + 1;
    }
    let counts = &outcome.counts;
    let pushed: usize = counts.local + counts.merged + counts.deleted;
    let plan_json = match &outcome.plan_json {
        Some(text) => text.clone(),
        None => "[]".to_owned(),
    };
    SyncOutcomeDto {
        initialized: outcome.initialized,
        revision: outcome.revision,
        changed_entities: shown,
        pull_count: counts.remote as i64,
        push_count: pushed as i64,
        merge_count: counts.merged as i64,
        deleted_count: counts.deleted as i64,
        plan_json,
    }
}

/// The revision that lies on the server; zero where none does yet.
pub fn sync_remote_revision(manifest: Option<i64>) -> (r: i64)
    ensures
        r == (match manifest {
            Some(revision) => revision,
            None => 0,
        }),
{
    match manifest {
        Some(revision) => revision,
        None => 0,
    }
}

/// What is stored of earlier runs.
pub struct SyncMeta {
    pub last_revision: Option<String>,
    pub last_sync_at: Option<String>,
    pub last_error: Option<String>,
    pub library_id: Option<String>,
}

/// What is shown of earlier runs.
pub struct SyncStatusDto {
    pub initialized: bool,
    pub revision: i64,
    pub last_sync_at: i64,
    pub last_error: String,
    pub library_id: String,
}

/// The number that is stored; zero where there is none.
pub open spec fn stored_number(o: Option<String>) -> int {
    match o {
        Some(s) => match signed_value(s@) {
            Some(n) => n,
            None => 0,
        },
        None => 0,
    }
}

fn read_number(o: &Option<String>) -> (r: i64)
    ensures
        r == stored_number(*o),
{
    match o {
        Some(s) => match parse_i64(s.as_str()) {
            Some(n) => n,
            None => 0,
        },
        None => 0,
    }
}

/// What is shown of earlier runs: there has been one where a revision is
/// known.
pub fn sync_status(meta: &SyncMeta) -> (r: SyncStatusDto)
    ensures
        r.initialized == (stored_number(meta.last_revision) > 0),
        r.revision == stored_number(meta.last_revision),
        r.last_sync_at == stored_number(meta.last_sync_at),
        r.last_error@ == text_or_empty(meta.last_error),
        r.library_id@ == text_or_empty(meta.library_id),
{
    let revision: i64 = read_number(&meta.last_revision);
    SyncStatusDto {
        initialized: revision > 0,
        revision,
        last_sync_at: read_number(&meta.last_sync_at),
        last_error: or_empty(&meta.last_error),
        library_id: or_empty(&meta.library_id),
    }
}

/// How many rows of each entity there are here.
pub fn sync_local_counts(snapshots: &Vec<(String, usize)>) -> (r: Vec<(String, i64)>)
    requires
        forall|i: int| 0 <= i < snapshots@.len() ==> (#[trigger] snapshots@[i]).1 <= i64::MAX,
    ensures
        r.len() == snapshots.len(),
        forall|i: int|
            0 <= i < snapshots.len() ==> (#[trigger] r@[i]).0 == snapshots@[i].0 && r@[i].1
                == snapshots@[i].1,
{
    let mut out: Vec<(String, i64)> = Vec::new();
    let mut i: usize = 0;
    while i < snapshots.len()
        invariant
            i <= snapshots.len(),
            forall|i: int| 0 <= i < snapshots@.len() ==> (#[trigger] snapshots@[i]).1 <= i64::MAX,
            out.len() == i,
            forall|j: int|
                0 <= j < i ==> (#[trigger] out@[j]).0 == snapshots@[j].0 && out@[j].1
                    == snapshots@[j].1,
        decreases snapshots.len() - i,
    {
        assert(snapshots@[i as int].1 <= i64::MAX);
        out.push((snapshots[i].0.clone(), snapshots[i].1 as i64));
        i = i + 1;
    }
    out
}

/// An earlier run, as it is stored.
pub struct SyncHistoryRow {
    pub id: i64,
    pub start_time: i64,
    pub end_time: i64,
    pub revision_before: i64,
    pub revision_after: i64,
    pub pull_count: i64,
    pub push_count: i64,
    pub merge_count: i64,
    pub conflict_count: i64,
    pub error: String,
    pub summary: String,
}

/// An earlier run, as it is shown.
pub struct SyncHistoryDto {
    pub id: i64,
    pub start_time: i64,
    pub end_time: i64,
    pub revision_before: i64,
    pub revision_after: i64,
    pub pull_count: i64,
    pub push_count: i64,
    pub merge_count: i64,
    pub conflict_count: i64,
    pub error: String,
    pub summary: String,
}

/// What is shown of a row.
pub open spec fn history_shown(row: SyncHistoryRow) -> SyncHistoryDto {
    SyncHistoryDto {
        id: row.id,
        start_time: row.start_time,
        end_time: row.end_time,
        revision_before: row.revision_before,
        revision_after: row.revision_after,
        pull_count: row.pull_count,
        push_count: row.push_count,
        merge_count: row.merge_count,
        conflict_count: row.conflict_count,
        error: row.error,
        summary: row.summary,
    }
}

/// What is shown of earlier runs, in their order.
pub fn sync_history_recent(rows: &Vec<SyncHistoryRow>) -> (r: Vec<SyncHistoryDto>)
    ensures
        r.len() == rows.len(),
        forall|i: int| 0 <= i < rows.len() ==> #[trigger] r@[i] == history_shown(rows@[i]),
{
    let mut out: Vec<SyncHistoryDto> = Vec::new();
    let mut i: usize = 0;
    while i < rows.len()
        invariant
            i <= rows.len(),
            out.len() == i,
            forall|j: int| 0 <= j < i ==> #[trigger] out@[j] == history_shown(rows@[j]),
        decreases rows.len() - i,
    {
        let row = &rows[i];
        out.push(SyncHistoryDto {
            id: row.id,
            start_time: row.start_time,
            end_time: row.end_time,
            revision_before: row.revision_before,
            revision_after: row.revision_after,
            pull_count: row.pull_count,
            push_count: row.push_count,
            merge_count: row.merge_count,
            conflict_count: row.conflict_count,
            error: row.error.clone(),
            summary: row.summary.clone(),
        });
        i = i + 1;
    }
    out
}

/// A device that takes part, as it is stored.
pub struct SyncDeviceRow {
    pub device_id: String,
    pub device_name: String,
    pub platform: String,
    pub last_seen_at: i64,
    pub last_revision: i64,
}

/// A device that takes part, as it is shown.
pub struct SyncDeviceDto {
    pub device_id: String,
    pub device_name: String,
    pub platform: String,
    pub last_seen_at: i64,
    pub last_revision: i64,
}

/// What is shown of a row.
pub open spec fn sync_device_shown(row: SyncDeviceRow) -> SyncDeviceDto {
    SyncDeviceDto {
        device_id: row.device_id,
        device_name: row.device_name,
        platform: row.platform,
        last_seen_at: row.last_seen_at,
        last_revision: row.last_revision,
    }
}

/// What is shown of the devices that take part, in their order.
pub fn sync_devices_list(rows: &Vec<SyncDeviceRow>) -> (r: Vec<SyncDeviceDto>)
    ensures
        r.len() == rows.len(),
        forall|i: int| 0 <= i < rows.len() ==> #[trigger] r@[i] == sync_device_shown(rows@[i]),
{
    let mut out: Vec<SyncDeviceDto> = Vec::new();
    let mut i: usize = 0;
    while i < rows.len()
        invariant
            i <= rows.len(),
            out.len() == i,
            forall|j: int| 0 <= j < i ==> #[trigger] out@[j] == sync_device_shown(rows@[j]),
        decreases rows.len() - i,
    {
        let row = &rows[i];
        out.push(SyncDeviceDto {
            device_id: row.device_id.clone(),
            device_name: row.device_name.clone(),
            platform: row.platform.clone(),
            last_seen_at: row.last_seen_at,
            last_revision: row.last_revision,
        });
        i = i + 1;
    }
    out
}

/// A stored number is read as it was written; what is no number, and nothing
/// at all, counts as zero.
pub proof fn law_stored_numbers_are_read_back(text: String, n: int)
    ensures
        stored_number(None) == 0,
        i64::MIN <= n <= i64::MAX && text@ == decimal_int(n) ==> stored_number(Some(text)) == n,
        signed_value(text@) is None ==> stored_number(Some(text)) == 0,
{
    if i64::MIN <= n <= i64::MAX {
        law_signed_decimal_reads_back(n);
    }
}

/// What is shown of an earlier run and of a device is what is stored of it,
/// each under its name.
pub proof fn law_runs_and_devices_are_shown_as_stored(run: SyncHistoryRow, device: SyncDeviceRow)
    ensures
        ({
            let shown = history_shown(run);
            &&& shown.id == run.id && shown.start_time == run.start_time && shown.end_time
                == run.end_time
            &&& shown.revision_before == run.revision_before && shown.revision_after
                == run.revision_after
            &&& shown.pull_count == run.pull_count && shown.push_count == run.push_count
            &&& shown.merge_count == run.merge_count && shown.conflict_count == run.conflict_count
            &&& shown.error == run.error && shown.summary == run.summary
        }),
        ({
            let shown = sync_device_shown(device);
            &&& shown.device_id == device.device_id && shown.device_name == device.device_name
            &&& shown.platform == device.platform && shown.last_seen_at == device.last_seen_at
            &&& shown.last_revision == device.last_revision
        }),
{
}

/// The entities of a run are shown in the order of their names, each once.
pub proof fn law_entities_are_shown_by_name(changed: Seq<(String, usize)>, a: int, b: int)
    requires
        changed.len() <= usize::MAX,
        0 <= a < b < changed.len(),
    ensures
        ({
            let order = the_order(plain_keys(entity_names(changed)));
            &&& order[a] < changed.len() && order[b] < changed.len() && order[a] != order[b]
            &&& text_le(changed[order[a] as int].0@, changed[order[b] as int].0@)
        }),
{
    let keys = plain_keys(entity_names(changed));
    law_stable_order_sorts_and_keeps(keys, a, b);
    let order = the_order(keys);
    assert(keys[order[a] as int] == plain_key(changed[order[a] as int].0@));
    assert(keys[order[b] as int] == plain_key(changed[order[b] as int].0@));
}

} // verus!
