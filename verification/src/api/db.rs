//! Stored rows and what is shown of them.

use vstd::prelude::*;
use vstd::string::*;

use crate::text::same;

verus! {

// ------------------------------------------------------------------
// A source
// ------------------------------------------------------------------

/// A source, as it is stored.
pub struct BookSourceRow {
    pub id: String,
    pub source_type: String,
    pub name: String,
    pub path: String,
    pub url: Option<String>,
    pub username: Option<String>,
    pub password: Option<String>,
    pub port: Option<i64>,
    pub refresh_token: Option<String>,
    pub client_id: Option<String>,
    pub client_secret: Option<String>,
    pub root_id: Option<String>,
    pub cookie: Option<String>,
    pub note: String,
    pub capability_label: String,
    pub remote_only: bool,
    pub origin_device_id: Option<String>,
}

/// A source, as it is shown.
pub struct BookSourceDto {
    pub id: String,
    pub source_type: String,
    pub name: String,
    pub path: String,
    pub url: Option<String>,
    pub username: Option<String>,
    pub password: Option<String>,
    pub port: Option<i64>,
    pub refresh_token: Option<String>,
    pub client_id: Option<String>,
    pub client_secret: Option<String>,
    pub root_id: Option<String>,
    pub cookie: Option<String>,
    pub note: String,
    pub capability_label: String,
    pub remote_only: bool,
    pub origin_device_id: Option<String>,
}

/// What is shown of a row.
pub open spec fn source_shown(row: BookSourceRow) -> BookSourceDto {
    BookSourceDto {
        id: row.id,
        source_type: row.source_type,
        name: row.name,
        path: row.path,
        url: row.url,
        username: row.username,
        password: row.password,
        port: row.port,
        refresh_token: row.refresh_token,
        client_id: row.client_id,
        client_secret: row.client_secret,
        root_id: row.root_id,
        cookie: row.cookie,
        note: row.note,
        capability_label: row.capability_label,
        remote_only: row.remote_only,
        origin_device_id: row.origin_device_id,
    }
}

fn source_dto(row: &BookSourceRow) -> (r: BookSourceDto)
    ensures
        r == source_shown(*row),
{
    BookSourceDto {
        id: row.id.clone(),
        source_type: row.source_type.clone(),
        name: row.name.clone(),
        path: row.path.clone(),
        url: row.url.clone(),
        username: row.username.clone(),
        password: row.password.clone(),
        port: row.port,
        refresh_token: row.refresh_token.clone(),
        client_id: row.client_id.clone(),
        client_secret: row.client_secret.clone(),
        root_id: row.root_id.clone(),
        cookie: row.cookie.clone(),
        note: row.note.clone(),
        capability_label: row.capability_label.clone(),
        remote_only: row.remote_only,
        origin_device_id: row.origin_device_id.clone(),
    }
}

/// What is shown of the rows, in their order.
pub fn db_load_all_sources(rows: &Vec<BookSourceRow>) -> (r: Vec<BookSourceDto>)
    ensures
        r.len() == rows.len(),
        forall|i: int| 0 <= i < rows.len() ==> #[trigger] r@[i] == source_shown(rows@[i]),
{
    let mut out: Vec<BookSourceDto> = Vec::new();
    let mut i: usize = 0;
    while i < rows.len()
        invariant
            i <= rows.len(),
            out.len() == i,
            forall|j: int| 0 <= j < i ==> #[trigger] out@[j] == source_shown(rows@[j]),
        decreases rows.len() - i,
    {
        out.push(source_dto(&rows[i]));
        i = i + 1;
    }
    out
}

/// The row that something shown is stored as: what is shown of it is the
/// same again.
pub fn db_upsert_source(source: BookSourceDto) -> (r: BookSourceRow)
    ensures
        source_shown(r) == source,
{
    BookSourceRow {
        id: source.id,
        source_type: source.source_type,
        name: source.name,
        path: source.path,
        url: source.url,
        username: source.username,
        password: source.password,
        port: source.port,
        refresh_token: source.refresh_token,
        client_id: source.client_id,
        client_secret: source.client_secret,
        root_id: source.root_id,
        cookie: source.cookie,
        note: source.note,
        capability_label: source.capability_label,
        remote_only: source.remote_only,
        origin_device_id: source.origin_device_id,
    }
}

// ------------------------------------------------------------------
// A device that takes part
// ------------------------------------------------------------------

/// A device that takes part, as it is stored.
pub struct DeviceRow {
    pub id: String,
    pub name: String,
}

/// A device that takes part, as it is shown.
pub struct DeviceDto {
    pub id: String,
    pub name: String,
}

/// What is shown of a row.
pub open spec fn device_shown(row: DeviceRow) -> DeviceDto {
    DeviceDto {
        id: row.id,
        name: row.name,
    }
}

fn device_dto(row: &DeviceRow) -> (r: DeviceDto)
    ensures
        r == device_shown(*row),
{
    DeviceDto {
        id: row.id.clone(),
        name: row.name.clone(),
    }
}

/// What is shown of the rows, in their order.
pub fn db_list_devices(rows: &Vec<DeviceRow>) -> (r: Vec<DeviceDto>)
    ensures
        r.len() == rows.len(),
        forall|i: int| 0 <= i < rows.len() ==> #[trigger] r@[i] == device_shown(rows@[i]),
{
    let mut out: Vec<DeviceDto> = Vec::new();
    let mut i: usize = 0;
    while i < rows.len()
        invariant
            i <= rows.len(),
            out.len() == i,
            forall|j: int| 0 <= j < i ==> #[trigger] out@[j] == device_shown(rows@[j]),
        decreases rows.len() - i,
    {
        out.push(device_dto(&rows[i]));
        i = i + 1;
    }
    out
}

// ------------------------------------------------------------------
// How far a book has been read
// ------------------------------------------------------------------

/// How far a book has been read, as it is stored.
pub struct ReadRecordRow {
    pub key: String,
    pub source_id: String,
    pub source_type: String,
    pub path: String,
    pub title: String,
    pub last_page: i32,
    pub read_count: i32,
    pub last_read_at: i64,
}

/// How far a book has been read, as it is shown.
pub struct ReadRecordDto {
    pub key: String,
    pub source_id: String,
    pub source_type: String,
    pub path: String,
    pub title: String,
    pub last_page: i32,
    pub read_count: i32,
    pub last_read_at: i64,
}

/// What is shown of a row.
pub open spec fn record_shown(row: ReadRecordRow) -> ReadRecordDto {
    ReadRecordDto {
        key: row.key,
        source_id: row.source_id,
        source_type: row.source_type,
        path: row.path,
        title: row.title,
        last_page: row.last_page,
        read_count: row.read_count,
        last_read_at: row.last_read_at,
    }
}

fn record_dto(row: &ReadRecordRow) -> (r: ReadRecordDto)
    ensures
        r == record_shown(*row),
{
    ReadRecordDto {
        key: row.key.clone(),
        source_id: row.source_id.clone(),
        source_type: row.source_type.clone(),
        path: row.path.clone(),
        title: row.title.clone(),
        last_page: row.last_page,
        read_count: row.read_count,
        last_read_at: row.last_read_at,
    }
}

/// What is shown of the rows, in their order.
pub fn db_load_all_records(rows: &Vec<ReadRecordRow>) -> (r: Vec<ReadRecordDto>)
    ensures
        r.len() == rows.len(),
        forall|i: int| 0 <= i < rows.len() ==> #[trigger] r@[i] == record_shown(rows@[i]),
{
    let mut out: Vec<ReadRecordDto> = Vec::new();
    let mut i: usize = 0;
    while i < rows.len()
        invariant
            i <= rows.len(),
            out.len() == i,
            forall|j: int| 0 <= j < i ==> #[trigger] out@[j] == record_shown(rows@[j]),
        decreases rows.len() - i,
    {
        out.push(record_dto(&rows[i]));
        i = i + 1;
    }
    out
}

/// The row that something shown is stored as: what is shown of it is the
/// same again.
pub fn db_upsert_record(record: ReadRecordDto) -> (r: ReadRecordRow)
    ensures
        record_shown(r) == record,
{
    ReadRecordRow {
        key: record.key,
        source_id: record.source_id,
        source_type: record.source_type,
        path: record.path,
        title: record.title,
        last_page: record.last_page,
        read_count: record.read_count,
        last_read_at: record.last_read_at,
    }
}

// ------------------------------------------------------------------
// A tag
// ------------------------------------------------------------------

/// A tag, as it is stored.
pub struct TagRow {
    pub id: String,
    pub name: String,
    pub created_at: i64,
}

/// A tag, as it is shown.
pub struct TagDto {
    pub id: String,
    pub name: String,
    pub created_at: i64,
}

/// What is shown of a row.
pub open spec fn tag_shown(row: TagRow) -> TagDto {
    TagDto {
        id: row.id,
        name: row.name,
        created_at: row.created_at,
    }
}

fn tag_dto(row: &TagRow) -> (r: TagDto)
    ensures
        r == tag_shown(*row),
{
    TagDto {
        id: row.id.clone(),
        name: row.name.clone(),
        created_at: row.created_at,
    }
}

/// What is shown of the rows, in their order.
pub fn db_load_all_tags(rows: &Vec<TagRow>) -> (r: Vec<TagDto>)
    ensures
        r.len() == rows.len(),
        forall|i: int| 0 <= i < rows.len() ==> #[trigger] r@[i] == tag_shown(rows@[i]),
{
    let mut out: Vec<TagDto> = Vec::new();
    let mut i: usize = 0;
    while i < rows.len()
        invariant
            i <= rows.len(),
            out.len() == i,
            forall|j: int| 0 <= j < i ==> #[trigger] out@[j] == tag_shown(rows@[j]),
        decreases rows.len() - i,
    {
        out.push(tag_dto(&rows[i]));
        i = i + 1;
    }
    out
}

/// A tag that is there, and the row that has to be stored for it to be.
pub struct EnsuredTag {
    pub tag: TagDto,
    pub insert: Option<TagRow>,
}

/// Whether the row at `i` is the first with this name.
pub open spec fn is_tag_named(rows: Seq<TagRow>, i: int, name: Seq<char>) -> bool {
    0 <= i < rows.len() && rows[i].name@ == name && forall|j: int|
        0 <= j < i ==> (#[trigger] rows[j]).name@ != name
}

/// Whether `r` is the tag with this name: the one that there is, or else a
/// new one with the given id and time.
pub open spec fn is_ensured(
    rows: Seq<TagRow>,
    name: Seq<char>,
    id: Seq<char>,
    now: i64,
    r: EnsuredTag,
) -> bool {
    match r.insert {
        None => exists|i: int| #[trigger]
            is_tag_named(rows, i, name) && r.tag == tag_shown(rows[i]),
        Some(row) => {
            &&& forall|j: int| 0 <= j < rows.len() ==> (#[trigger] rows[j]).name@ != name
            &&& row.id@ == id && row.name@ == name && row.created_at == now
            &&& r.tag == tag_shown(row)
        },
    }
}

/// Makes sure that there is a tag with this name.
pub fn db_ensure_tag(rows: &Vec<TagRow>, name: &str, id: String, now: i64) -> (r: EnsuredTag)
    ensures
        is_ensured(rows@, name@, id@, now, r),
{
    let mut i: usize = 0;
    while i < rows.len()
        invariant
            i <= rows.len(),
            forall|j: int| 0 <= j < i ==> (#[trigger] rows@[j]).name@ != name@,
        decreases rows.len() - i,
    {
        if same(rows[i].name.as_str(), name) {
            assert(is_tag_named(rows@, i as int, name@));
            return EnsuredTag { tag: tag_dto(&rows[i]), insert: None };
        }
        i = i + 1;
    }
    let row = TagRow { id, name: name.to_owned(), created_at: now };
    EnsuredTag { tag: tag_dto(&row), insert: Some(row) }
}

/// The rows once a tag has been ensured.
pub open spec fn with_tag(rows: Seq<TagRow>, r: EnsuredTag) -> Seq<TagRow> {
    match r.insert {
        Some(row) => rows.push(row),
        None => rows,
    }
}

/// Whether no two rows have one name.
pub open spec fn tags_differ(rows: Seq<TagRow>) -> bool {
    forall|i: int, j: int|
        0 <= i < j < rows.len() ==> (#[trigger] rows[i]).name@ != (#[trigger] rows[j]).name@
}

/// Ensuring a tag again gives the same tag and stores nothing, and there is
/// never more than one tag of a name.
pub proof fn law_tags_are_made_once(
    rows: Seq<TagRow>,
    name: Seq<char>,
    id: Seq<char>,
    now: i64,
    first: EnsuredTag,
    again_id: Seq<char>,
    again_now: i64,
    again: EnsuredTag,
)
    requires
        is_ensured(rows, name, id, now, first),
        is_ensured(with_tag(rows, first), name, again_id, again_now, again),
    ensures
        again.insert is None,
        again.tag == first.tag,
        with_tag(with_tag(rows, first), again) == with_tag(rows, first),
        tags_differ(rows) ==> tags_differ(with_tag(rows, first)),
{
    let kept = with_tag(rows, first);
    match first.insert {
        None => {
            let i = choose|i: int| #[trigger]
                is_tag_named(rows, i, name) && first.tag == tag_shown(rows[i]);
            assert(kept[i].name@ == name);
            if again.insert is None {
                let k = choose|k: int| #[trigger]
                    is_tag_named(kept, k, name) && again.tag == tag_shown(kept[k]);
                assert(k == i) by {
                    if k < i {
                        assert(rows[k].name@ != name);
                    }
                    if i < k {
                        assert(kept[i].name@ != name);
                    }
                }
            }
        },
        Some(row) => {
            let n = rows.len() as int;
            assert(kept[n] == row);
            if again.insert is None {
                let k = choose|k: int| #[trigger]
                    is_tag_named(kept, k, name) && again.tag == tag_shown(kept[k]);
                if k < n {
                    assert(kept[k] == rows[k]);
                    assert(rows[k].name@ != name);
                }
            }
            if tags_differ(rows) {
                assert forall|a: int, b: int| 0 <= a < b < kept.len() implies (
                #[trigger] kept[a]).name@ != (#[trigger] kept[b]).name@ by {
                    assert(kept[a] == rows[a]);
                    if b < n {
                        assert(kept[b] == rows[b]);
                    }
                }
            }
        },
    }
}

// ------------------------------------------------------------------
// A tag of a book
// ------------------------------------------------------------------

/// A tag of a book, as it is stored.
pub struct BookTagRow {
    pub book_key: String,
    pub tag_id: String,
}

/// A tag of a book, as it is shown.
pub struct BookTagDto {
    pub book_key: String,
    pub tag_id: String,
}

/// What is shown of a row.
pub open spec fn book_tag_shown(row: BookTagRow) -> BookTagDto {
    BookTagDto {
        book_key: row.book_key,
        tag_id: row.tag_id,
    }
}

fn book_tag_dto(row: &BookTagRow) -> (r: BookTagDto)
    ensures
        r == book_tag_shown(*row),
{
    BookTagDto {
        book_key: row.book_key.clone(),
        tag_id: row.tag_id.clone(),
    }
}

/// What is shown of the rows, in their order.
pub fn db_load_all_book_tags(rows: &Vec<BookTagRow>) -> (r: Vec<BookTagDto>)
    ensures
        r.len() == rows.len(),
        forall|i: int| 0 <= i < rows.len() ==> #[trigger] r@[i] == book_tag_shown(rows@[i]),
{
    let mut out: Vec<BookTagDto> = Vec::new();
    let mut i: usize = 0;
    while i < rows.len()
        invariant
            i <= rows.len(),
            out.len() == i,
            forall|j: int| 0 <= j < i ==> #[trigger] out@[j] == book_tag_shown(rows@[j]),
        decreases rows.len() - i,
    {
        out.push(book_tag_dto(&rows[i]));
        i = i + 1;
    }
    out
}

// ------------------------------------------------------------------
// A setting
// ------------------------------------------------------------------

/// A setting, as it is stored.
pub struct SettingEntryRow {
    pub key: String,
    pub value: String,
}

/// A setting, as it is shown.
pub struct SettingEntryDto {
    pub key: String,
    pub value: String,
}

/// What is shown of a row.
pub open spec fn setting_shown(row: SettingEntryRow) -> SettingEntryDto {
    SettingEntryDto {
        key: row.key,
        value: row.value,
    }
}

fn setting_dto(row: &SettingEntryRow) -> (r: SettingEntryDto)
    ensures
        r == setting_shown(*row),
{
    SettingEntryDto {
        key: row.key.clone(),
        value: row.value.clone(),
    }
}

/// What is shown of the rows, in their order.
pub fn db_load_all_settings(rows: &Vec<SettingEntryRow>) -> (r: Vec<SettingEntryDto>)
    ensures
        r.len() == rows.len(),
        forall|i: int| 0 <= i < rows.len() ==> #[trigger] r@[i] == setting_shown(rows@[i]),
{
    let mut out: Vec<SettingEntryDto> = Vec::new();
    let mut i: usize = 0;
    while i < rows.len()
        invariant
            i <= rows.len(),
            out.len() == i,
            forall|j: int| 0 <= j < i ==> #[trigger] out@[j] == setting_shown(rows@[j]),
        decreases rows.len() - i,
    {
        out.push(setting_dto(&rows[i]));
        i = i + 1;
    }
    out
}

// ------------------------------------------------------------------
// A task that enlarges the pages of a book
// ------------------------------------------------------------------

/// A task that enlarges the pages of a book, as it is stored.
pub struct AiTaskRow {
    pub id: String,
    pub book_key: String,
    pub source_type: String,
    pub source_id: String,
    pub path: String,
    pub title: String,
    pub scale: i64,
    pub total: i64,
    pub done: i64,
    pub status: String,
    pub sort_order: i64,
    pub created_at: i64,
    pub updated_at: i64,
}

/// A task that enlarges the pages of a book, as it is shown.
pub struct AiTaskDto {
    pub id: String,
    pub book_key: String,
    pub source_type: String,
    pub source_id: String,
    pub path: String,
    pub title: String,
    pub scale: i64,
    pub total: i64,
    pub done: i64,
    pub status: String,
    pub sort_order: i64,
    pub created_at: i64,
    pub updated_at: i64,
}

/// What is shown of a row.
pub open spec fn ai_task_shown(row: AiTaskRow) -> AiTaskDto {
    AiTaskDto {
        id: row.id,
        book_key: row.book_key,
        source_type: row.source_type,
        source_id: row.source_id,
        path: row.path,
        title: row.title,
        scale: row.scale,
        total: row.total,
        done: row.done,
        status: row.status,
        sort_order: row.sort_order,
        created_at: row.created_at,
        updated_at: row.updated_at,
    }
}

fn ai_task_dto(row: &AiTaskRow) -> (r: AiTaskDto)
    ensures
        r == ai_task_shown(*row),
{
    AiTaskDto {
        id: row.id.clone(),
        book_key: row.book_key.clone(),
        source_type: row.source_type.clone(),
        source_id: row.source_id.clone(),
        path: row.path.clone(),
        title: row.title.clone(),
        scale: row.scale,
        total: row.total,
        done: row.done,
        status: row.status.clone(),
        sort_order: row.sort_order,
        created_at: row.created_at,
        updated_at: row.updated_at,
    }
}

/// What is shown of the rows, in their order.
pub fn db_load_all_ai_tasks(rows: &Vec<AiTaskRow>) -> (r: Vec<AiTaskDto>)
    ensures
        r.len() == rows.len(),
        forall|i: int| 0 <= i < rows.len() ==> #[trigger] r@[i] == ai_task_shown(rows@[i]),
{
    let mut out: Vec<AiTaskDto> = Vec::new();
    let mut i: usize = 0;
    while i < rows.len()
        invariant
            i <= rows.len(),
            out.len() == i,
            forall|j: int| 0 <= j < i ==> #[trigger] out@[j] == ai_task_shown(rows@[j]),
        decreases rows.len() - i,
    {
        out.push(ai_task_dto(&rows[i]));
        i = i + 1;
    }
    out
}

/// The row that something shown is stored as: what is shown of it is the
/// same again.
pub fn db_upsert_ai_task(ai_task: AiTaskDto) -> (r: AiTaskRow)
    ensures
        ai_task_shown(r) == ai_task,
{
    AiTaskRow {
        id: ai_task.id,
        book_key: ai_task.book_key,
        source_type: ai_task.source_type,
        source_id: ai_task.source_id,
        path: ai_task.path,
        title: ai_task.title,
        scale: ai_task.scale,
        total: ai_task.total,
        done: ai_task.done,
        status: ai_task.status,
        sort_order: ai_task.sort_order,
        created_at: ai_task.created_at,
        updated_at: ai_task.updated_at,
    }
}

/// The places of waiting tasks in a given order, counted from one.
pub fn db_reorder_ai_tasks(ids: &Vec<String>) -> (r: Vec<(String, i64)>)
    requires
        ids@.len() < i64::MAX,
    ensures
        r.len() == ids.len(),
        forall|i: int| 0 <= i < ids.len() ==> (#[trigger] r@[i]).0 == ids@[i] && r@[i].1 == i + 1,
{
    let count: usize = ids.len();
    let mut out: Vec<(String, i64)> = Vec::new();
    let mut i: usize = 0;
    while i < count
        invariant
            count == ids.len(),
            count < i64::MAX,
            i <= count,
            out.len() == i,
            forall|j: int| 0 <= j < i ==> (#[trigger] out@[j]).0 == ids@[j] && out@[j].1 == j + 1,
        decreases count - i,
    {
        out.push((ids[i].clone(), i as i64 + 1));
        i = i + 1;
    }
    out
}

/// What is shown of a stored row is what is stored, each field under its
/// name.
pub proof fn law_rows_are_shown_as_stored(
    source: BookSourceRow,
    device: DeviceRow,
    record: ReadRecordRow,
    tag: TagRow,
    book_tag: BookTagRow,
    setting: SettingEntryRow,
    task: AiTaskRow,
)
    ensures
        ({
            let shown = source_shown(source);
            &&& shown.id == source.id
            &&& shown.source_type == source.source_type
            &&& shown.name == source.name
            &&& shown.path == source.path
            &&& shown.url == source.url
            &&& shown.username == source.username
            &&& shown.password == source.password
            &&& shown.port == source.port
            &&& shown.refresh_token == source.refresh_token
            &&& shown.client_id == source.client_id
            &&& shown.client_secret == source.client_secret
            &&& shown.root_id == source.root_id
            &&& shown.cookie == source.cookie
            &&& shown.note == source.note
            &&& shown.capability_label == source.capability_label
            &&& shown.remote_only == source.remote_only
            &&& shown.origin_device_id == source.origin_device_id
        }),
        ({
            let shown = device_shown(device);
            &&& shown.id == device.id
            &&& shown.name == device.name
        }),
        ({
            let shown = record_shown(record);
            &&& shown.key == record.key
            &&& shown.source_id == record.source_id
            &&& shown.source_type == record.source_type
            &&& shown.path == record.path
            &&& shown.title == record.title
            &&& shown.last_page == record.last_page
            &&& shown.read_count == record.read_count
            &&& shown.last_read_at == record.last_read_at
        }),
        ({
            let shown = tag_shown(tag);
            &&& shown.id == tag.id
            &&& shown.name == tag.name
            &&& shown.created_at == tag.created_at
        }),
        ({
            let shown = book_tag_shown(book_tag);
            &&& shown.book_key == book_tag.book_key
            &&& shown.tag_id == book_tag.tag_id
        }),
        ({
            let shown = setting_shown(setting);
            &&& shown.key == setting.key
            &&& shown.value == setting.value
        }),
        ({
            let shown = ai_task_shown(task);
            &&& shown.id == task.id
            &&& shown.book_key == task.book_key
            &&& shown.source_type == task.source_type
            &&& shown.source_id == task.source_id
            &&& shown.path == task.path
            &&& shown.title == task.title
            &&& shown.scale == task.scale
            &&& shown.total == task.total
            &&& shown.done == task.done
            &&& shown.status == task.status
            &&& shown.sort_order == task.sort_order
            &&& shown.created_at == task.created_at
            &&& shown.updated_at == task.updated_at
        }),
{
}

/// Of several tags with one name the first counts: an ensured tag is new
/// exactly where no stored one has its name, and has then the name, the id
/// and the time that were given.
pub proof fn law_new_tags_have_what_was_given(
    rows: Seq<TagRow>,
    name: Seq<char>,
    id: Seq<char>,
    now: i64,
    r: EnsuredTag,
    i: int,
)
    requires
        is_ensured(rows, name, id, now, r),
    ensures
        r.tag.name@ == name,
        r.insert is Some <==> forall|j: int|
            0 <= j < rows.len() ==> (#[trigger] rows[j]).name@ != name,
        r.insert matches Some(row) ==> row.id@ == id && row.name@ == name && row.created_at == now
            && r.tag.id@ == id && r.tag.created_at == now,
        r.insert is None && 0 <= i < rows.len() && rows[i].name@ == name && (forall|j: int|
            0 <= j < i ==> (#[trigger] rows[j]).name@ != name) ==> r.tag.id == rows[i].id
            && r.tag.created_at == rows[i].created_at,
{
    if r.insert is None {
        let k = choose|k: int| #[trigger]
            is_tag_named(rows, k, name) && r.tag == tag_shown(rows[k]);
        assert(rows[k].name@ == name);
        if 0 <= i < rows.len() && rows[i].name@ == name && (forall|j: int|
            0 <= j < i ==> (#[trigger] rows[j]).name@ != name) {
            if k < i {
                assert(rows[k].name@ != name);
            } else if i < k {
                assert(rows[i].name@ != name);
            }
        }
    }
}

} // verus!
