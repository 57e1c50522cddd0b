//! The library across devices: which source is where, what can be read of
//! it, and how books are searched.

use vstd::prelude::*;
use vstd::string::*;

use crate::number::{dec_u64, decimal, digit};
use crate::order::{
    key_le, keys_of, law_stable_order_sorts_and_keeps, plain_key, plain_key_of, stable_order,
    stable_order_of, text_le, the_order, Token,
};
use crate::text::{
    ascii_lower, cat2, cat3, cat5, ends, ends_with, is_blank, joined, lowered, opt_text, same,
    stripped, text_or_empty, or_empty, trim, CharClass,
};

verus! {

// ------------------------------------------------------------------
// Keys of books
// ------------------------------------------------------------------

/// `path` without its last `n` characters.
pub open spec fn without_last(path: Seq<char>, n: int) -> Seq<char> {
    path.take(path.len() - n)
}

/// The path under which a book is known: without the extension of an
/// archive, and with one extension for all Kindle formats. The extension
/// counts without ASCII case.
pub open spec fn library_path(path: Seq<char>) -> Seq<char> {
    let t = lowered(path);
    if ends(t, ".cbz"@) || ends(t, ".zip"@) || ends(t, ".cbr"@) || ends(t, ".rar"@) || ends(
        t,
        ".cb7"@,
    ) {
        without_last(path, 4)
    } else if ends(t, ".7z"@) {
        without_last(path, 3)
    } else if ends(t, ".cbt"@) || ends(t, ".tar"@) {
        without_last(path, 4)
    } else if ends(t, ".azw3"@) {
        without_last(path, 5) + ".mobi"@
    } else if ends(t, ".azw"@) {
        without_last(path, 4) + ".mobi"@
    } else {
        path
    }
}

/// The key of a book.
pub open spec fn book_key(source_type: Seq<char>, source_id: Seq<char>, path: Seq<char>) -> Seq<
    char,
> {
    source_type + "|"@ + source_id + "|"@ + library_path(path)
}

fn drop_chars(path: &str, n: usize) -> (r: String)
    requires
        n <= path@.len(),
    ensures
        r@ == without_last(path@, n as int),
{
    let len: usize = path.unicode_len();
    let s = path.substring_char(0, len - n).to_owned();
    assert(s@ == path@.take(path@.len() - n));
    s
}

/// The path under which a book is known.
pub fn library_path_of(path: &str) -> (r: String)
    ensures
        r@ == library_path(path@),
{
    let lower = ascii_lower(path);
    let t = lower.as_str();
    proof {
        reveal_strlit(".cbz");
        reveal_strlit(".zip");
        reveal_strlit(".cbr");
        reveal_strlit(".rar");
        reveal_strlit(".cb7");
        reveal_strlit(".7z");
        reveal_strlit(".cbt");
        reveal_strlit(".tar");
        reveal_strlit(".azw3");
        reveal_strlit(".azw");
        assert(lowered(path@).len() == path@.len());
    }
    if ends_with(t, ".cbz") || ends_with(t, ".zip") || ends_with(t, ".cbr") || ends_with(t, ".rar")
        || ends_with(t, ".cb7") {
        drop_chars(path, 4)
    } else if ends_with(t, ".7z") {
        drop_chars(path, 3)
    } else if ends_with(t, ".cbt") || ends_with(t, ".tar") {
        drop_chars(path, 4)
    } else if ends_with(t, ".azw3") {
        let head = drop_chars(path, 5);
        cat2(head.as_str(), ".mobi")
    } else if ends_with(t, ".azw") {
        let head = drop_chars(path, 4);
        cat2(head.as_str(), ".mobi")
    } else {
        path.to_owned()
    }
}

/// The key of a book.
pub fn book_key_of(source_type: &str, source_id: &str, path: &str) -> (r: String)
    ensures
        r@ == book_key(source_type@, source_id@, path@),
{
    let known = library_path_of(path);
    cat5(source_type, "|", source_id, "|", known.as_str())
}

// ------------------------------------------------------------------
// What can be read of a source
// ------------------------------------------------------------------

/// What a source needs to be opened, as far as it is stored.
pub struct Credentials {
    pub username: Option<String>,
    pub password: Option<String>,
    pub refresh_token: Option<String>,
    pub cookie: Option<String>,
}

/// Whether a text is there and not empty.
pub open spec fn filled(o: Option<String>) -> bool {
    text_or_empty(o).len() > 0
}

fn is_filled(o: &Option<String>) -> (r: bool)
    ensures
        r == filled(*o),
{
    match o {
        Some(s) => !s.as_str().is_empty(),
        None => false,
    }
}

/// Whether the stored credentials suffice for this kind of source.
pub open spec fn has_credentials(source_type: Seq<char>, c: Credentials) -> bool {
    if source_type == "webdav"@ || source_type == "sftp"@ {
        filled(c.username) && filled(c.password)
    } else if source_type == "baidu"@ {
        filled(c.refresh_token)
    } else if source_type == "115"@ || source_type == "quark"@ {
        filled(c.cookie)
    } else {
        false
    }
}

/// Whether the stored credentials suffice for this kind of source.
pub fn cloud_has_credentials(source_type: &str, c: &Credentials) -> (r: bool)
    ensures
        r == has_credentials(source_type@, *c),
{
    if same(source_type, "webdav") || same(source_type, "sftp") {
        is_filled(&c.username) && is_filled(&c.password)
    } else if same(source_type, "baidu") {
        is_filled(&c.refresh_token)
    } else if same(source_type, "115") || same(source_type, "quark") {
        is_filled(&c.cookie)
    } else {
        false
    }
}

/// Whether the source is a directory of this or a neighbouring machine.
pub open spec fn is_file_source(source_type: Seq<char>) -> bool {
    source_type == "local"@ || source_type == "smb"@
}

/// What can be done with a source: read it, read it over the network, or
/// only look at its index.
pub open spec fn availability(
    source_type: Seq<char>,
    has_local_source: bool,
    has_local_resource: bool,
    credentials: bool,
) -> Seq<char> {
    if is_file_source(source_type) && has_local_resource {
        "read"@
    } else if has_local_source && (credentials || is_file_source(source_type)) {
        "needs_network"@
    } else {
        "index_only"@
    }
}

/// What can be done with a source.
pub fn source_status(
    source_type: &str,
    has_local_source: bool,
    has_local_resource: bool,
    has_credentials: bool,
) -> (r: &'static str)
    ensures
        r@ == availability(source_type@, has_local_source, has_local_resource, has_credentials),
{
    let is_cloud = !same(source_type, "local") && !same(source_type, "smb");
    if !is_cloud && has_local_resource {
        "read"
    } else if has_local_source && (has_credentials || !is_cloud) {
        "needs_network"
    } else {
        "index_only"
    }
}

// ------------------------------------------------------------------
// Devices
// ------------------------------------------------------------------

/// A device that takes part in synchronisation.
pub struct DeviceEntry {
    pub device_id: String,
    pub device_name: String,
}

/// The name of the first device with this id, else `fallback`.
pub open spec fn name_of_device(
    devices: Seq<DeviceEntry>,
    id: Seq<char>,
    fallback: Seq<char>,
) -> Seq<char>
    decreases devices.len(),
{
    if devices.len() == 0 {
        fallback
    } else if devices[0].device_id@ == id {
        devices[0].device_name@
    } else {
        name_of_device(devices.drop_first(), id, fallback)
    }
}

/// The name under which a device is shown.
pub open spec fn shown_device_name(
    devices: Seq<DeviceEntry>,
    id: Seq<char>,
    own_id: Seq<char>,
) -> Seq<char> {
    if id == own_id {
        name_of_device(devices, id, "本机"@)
    } else {
        name_of_device(devices, id, "其他设备"@)
    }
}

/// The name under which a device is shown.
pub fn device_name(devices: &Vec<DeviceEntry>, id: &str, own_id: &str) -> (r: String)
    ensures
        r@ == shown_device_name(devices@, id@, own_id@),
{
    let fallback = if same(id, own_id) {
        "本机"
    } else {
        "其他设备"
    };
    let mut i: usize = 0;
    assert(devices@.skip(0) == devices@);
    while i < devices.len()
        invariant
            i <= devices.len(),
            fallback@ == (if id@ == own_id@ {
                "本机"@
            } else {
                "其他设备"@
            }),
            name_of_device(devices@, id@, fallback@) == name_of_device(
                devices@.skip(i as int),
                id@,
                fallback@,
            ),
        decreases devices.len() - i,
    {
        if same(devices[i].device_id.as_str(), id) {
            return devices[i].device_name.clone();
        }
        assert(devices@.skip(i as int).drop_first() == devices@.skip(i + 1));
        i = i + 1;
    }
    fallback.to_owned()
}

/// The device that a source belongs to: for one that came from elsewhere the
/// device it came from, where this is known, and this device for all others.
pub open spec fn home_device(
    remote_only: i64,
    origin_device_id: Option<String>,
    own_id: Seq<char>,
) -> Seq<char> {
    if remote_only != 0 && origin_device_id is Some {
        (origin_device_id->0)@
    } else {
        own_id
    }
}

fn home_device_of(remote_only: i64, origin_device_id: &Option<String>, own_id: &str) -> (r: String)
    ensures
        r@ == home_device(remote_only, *origin_device_id, own_id@),
{
    if remote_only != 0 {
        match origin_device_id {
            Some(id) => id.clone(),
            None => own_id.to_owned(),
        }
    } else {
        own_id.to_owned()
    }
}

// ------------------------------------------------------------------
// The tree of devices and sources
// ------------------------------------------------------------------

/// A stored source.
pub struct SourceRow {
    pub id: String,
    pub source_type: String,
    pub name: String,
    pub path: String,
    pub credentials: Credentials,
    pub fingerprint: String,
    pub remote_only: i64,
    pub origin_device_id: Option<String>,
    /// Whether the path exists on this machine.
    pub path_exists: bool,
}

/// What is shown of a source.
pub struct SourceAvailabilityDto {
    pub source_id: String,
    pub fingerprint: String,
    pub name: String,
    pub source_type: String,
    pub path: String,
    pub has_local_source: bool,
    pub has_local_resource: bool,
    pub has_credentials: bool,
    pub device_id: String,
    pub device_name: String,
    pub is_remote: bool,
    pub offline_index_count: i64,
    pub can_browse_offline: bool,
    pub requires_network: bool,
    /// `read`, `needs_network` or `index_only`.
    pub status: String,
}

/// A device with its sources.
pub struct SourceTreeNodeDto {
    pub device_id: String,
    pub device_name: String,
    pub sources: Vec<SourceAvailabilityDto>,
}

/// The count stored last for this source, 0 where there is none.
pub open spec fn index_count(counts: Seq<(String, i64)>, id: Seq<char>) -> i64
    decreases counts.len(),
{
    if counts.len() == 0 {
        0
    } else if counts.last().0@ == id {
        counts.last().1
    } else {
        index_count(counts.drop_last(), id)
    }
}

fn index_count_of(counts: &Vec<(String, i64)>, id: &str) -> (r: i64)
    ensures
        r == index_count(counts@, id@),
{
    let mut n: usize = counts.len();
    assert(counts@.take(n as int) == counts@);
    while n > 0
        invariant
            n <= counts.len(),
            index_count(counts@, id@) == index_count(counts@.take(n as int), id@),
        decreases n,
    {
        assert(counts@.take(n as int).last() == counts@[n - 1]);
        if same(counts[n - 1].0.as_str(), id) {
            return counts[n - 1].1;
        }
        assert(counts@.take(n as int).drop_last() == counts@.take(n - 1));
        n = n - 1;
    }
    0
}

/// The device of a row.
pub open spec fn row_device(row: SourceRow, own_id: Seq<char>) -> Seq<char> {
    home_device(row.remote_only, row.origin_device_id, own_id)
}

/// Whether the source of a row is a directory that is there.
pub open spec fn row_resource(row: SourceRow) -> bool {
    is_file_source(row.source_type@) && row.path_exists
}

/// Whether `dto` is what is shown of a row.
pub open spec fn shows_source(
    dto: SourceAvailabilityDto,
    row: SourceRow,
    own_id: Seq<char>,
    devices: Seq<DeviceEntry>,
    counts: Seq<(String, i64)>,
) -> bool {
    let credentials = has_credentials(row.source_type@, row.credentials);
    let device = row_device(row, own_id);
    &&& dto.source_id@ == row.id@ && dto.fingerprint@ == row.fingerprint@ && dto.name@ == row.name@
    &&& dto.source_type@ == row.source_type@ && dto.path@ == row.path@
    &&& dto.is_remote == (row.remote_only != 0) && dto.has_local_source == !dto.is_remote
    &&& dto.has_local_resource == row_resource(row)
    &&& dto.has_credentials == credentials
    &&& dto.device_id@ == device
    &&& dto.device_name@ == shown_device_name(devices, device, own_id)
    &&& dto.offline_index_count == index_count(counts, row.id@)
    &&& dto.can_browse_offline == (dto.offline_index_count > 0)
    &&& dto.requires_network == (!is_file_source(row.source_type@) && credentials)
    &&& dto.status@ == availability(
        row.source_type@,
        dto.has_local_source,
        dto.has_local_resource,
        credentials,
    )
}

fn show_source(
    row: &SourceRow,
    own_id: &str,
    devices: &Vec<DeviceEntry>,
    counts: &Vec<(String, i64)>,
) -> (r: SourceAvailabilityDto)
    ensures
        shows_source(r, *row, own_id@, devices@, counts@),
{
    let is_remote = row.remote_only != 0;
    let credentials = cloud_has_credentials(row.source_type.as_str(), &row.credentials);
    let is_file = same(row.source_type.as_str(), "local") || same(row.source_type.as_str(), "smb");
    let has_local_resource = is_file && row.path_exists;
    let device_id = home_device_of(row.remote_only, &row.origin_device_id, own_id);
    let name = device_name(devices, device_id.as_str(), own_id);
    let count: i64 = index_count_of(counts, row.id.as_str());
    let status = source_status(
        row.source_type.as_str(),
        !is_remote,
        has_local_resource,
        credentials,
    ).to_owned();
    SourceAvailabilityDto {
        source_id: row.id.clone(),
        fingerprint: row.fingerprint.clone(),
        name: row.name.clone(),
        source_type: row.source_type.clone(),
        path: row.path.clone(),
        has_local_source: !is_remote,
        has_local_resource,
        has_credentials: credentials,
        device_id,
        device_name: name,
        is_remote,
        offline_index_count: count,
        can_browse_offline: count > 0,
        requires_network: !is_file && credentials,
        status,
    }
}

/// The devices of the first `n` rows, in the order in which they appear.
pub open spec fn tree_devices(rows: Seq<SourceRow>, n: int, own_id: Seq<char>) -> Seq<Seq<char>>
    decreases n,
{
    if n <= 0 {
        Seq::<Seq<char>>::empty()
    } else {
        let before = tree_devices(rows, n - 1, own_id);
        let device = row_device(rows[n - 1], own_id);
        if before.contains(device) {
            before
        } else {
            before.push(device)
        }
    }
}

/// The positions, among the first `n` rows, of those of a device.
pub open spec fn device_rows(
    rows: Seq<SourceRow>,
    n: int,
    own_id: Seq<char>,
    device: Seq<char>,
) -> Seq<int>
    decreases n,
{
    if n <= 0 {
        Seq::<int>::empty()
    } else if row_device(rows[n - 1], own_id) == device {
        device_rows(rows, n - 1, own_id, device).push(n - 1)
    } else {
        device_rows(rows, n - 1, own_id, device)
    }
}

/// This device first, the others in their order.
pub open spec fn own_first(ids: Seq<Seq<char>>, own_id: Seq<char>) -> Seq<Seq<char>> {
    if ids.contains(own_id) {
        seq![own_id] + ids.remove(ids.index_of(own_id))
    } else {
        ids
    }
}

/// Whether `node` is what is shown of a device, its sources being those of
/// the first `n` rows.
pub open spec fn shows_device(
    node: SourceTreeNodeDto,
    device: Seq<char>,
    rows: Seq<SourceRow>,
    n: int,
    own_id: Seq<char>,
    devices: Seq<DeviceEntry>,
    counts: Seq<(String, i64)>,
) -> bool {
    let positions = device_rows(rows, n, own_id, device);
    &&& node.device_id@ == device
    &&& node.device_name@ == shown_device_name(devices, device, own_id)
    &&& node.sources@.len() == positions.len()
    &&& forall|k: int|
        0 <= k < positions.len() ==> shows_source(
            #[trigger] node.sources@[k],
            rows[positions[k]],
            own_id,
            devices,
            counts,
        )
}

proof fn lemma_unseen_device_has_no_rows(
    rows: Seq<SourceRow>,
    n: int,
    own_id: Seq<char>,
    device: Seq<char>,
)
    requires
        !tree_devices(rows, n, own_id).contains(device),
    ensures
        device_rows(rows, n, own_id, device).len() == 0,
    decreases n,
{
    if n > 0 {
        let before = tree_devices(rows, n - 1, own_id);
        let here = row_device(rows[n - 1], own_id);
        if before.contains(device) {
            let k = choose|k: int| 0 <= k < before.len() && before[k] == device;
            if !before.contains(here) {
                assert(before.push(here)[k] == device);
            }
            assert(tree_devices(rows, n, own_id).contains(device));
        }
        if here == device {
            if !before.contains(here) {
                assert(before.push(here)[before.len() as int] == device);
            }
            assert(tree_devices(rows, n, own_id).contains(device));
        }
        lemma_unseen_device_has_no_rows(rows, n - 1, own_id, device);
    }
}

proof fn lemma_tree_devices_differ(rows: Seq<SourceRow>, n: int, own_id: Seq<char>)
    ensures
        tree_devices(rows, n, own_id).no_duplicates(),
    decreases n,
{
    if n > 0 {
        lemma_tree_devices_differ(rows, n - 1, own_id);
    }
}

fn find_node(nodes: &Vec<SourceTreeNodeDto>, id: &str) -> (r: Option<usize>)
    ensures
        match r {
            Some(i) => i < nodes@.len() && nodes@[i as int].device_id@ == id@,
            None => forall|k: int|
                0 <= k < nodes@.len() ==> (#[trigger] nodes@[k]).device_id@ != id@,
        },
{
    let mut i: usize = 0;
    while i < nodes.len()
        invariant
            i <= nodes.len(),
            forall|k: int| 0 <= k < i ==> (#[trigger] nodes@[k]).device_id@ != id@,
        decreases nodes.len() - i,
    {
        if same(nodes[i].device_id.as_str(), id) {
            return Some(i);
        }
        i = i + 1;
    }
    None
}

/// The tree of devices and sources: each source below its device, in stored
/// order, and this device first.
pub fn db_source_tree(
    own_id: &str,
    devices: &Vec<DeviceEntry>,
    counts: &Vec<(String, i64)>,
    rows: &Vec<SourceRow>,
) -> (r: Vec<SourceTreeNodeDto>)
    ensures
        ({
            let n = rows@.len() as int;
            let ids = own_first(tree_devices(rows@, n, own_id@), own_id@);
            &&& r@.len() == ids.len()
            &&& forall|k: int|
                0 <= k < ids.len() ==> shows_device(
                    #[trigger] r@[k],
                    ids[k],
                    rows@,
                    n,
                    own_id@,
                    devices@,
                    counts@,
                )
        }),
{
    let mut nodes: Vec<SourceTreeNodeDto> = Vec::new();
    let mut i: usize = 0;
    while i < rows.len()
        invariant
            i <= rows.len(),
            nodes@.len() == tree_devices(rows@, i as int, own_id@).len(),
            forall|k: int|
                0 <= k < nodes@.len() ==> shows_device(
                    #[trigger] nodes@[k],
                    tree_devices(rows@, i as int, own_id@)[k],
                    rows@,
                    i as int,
                    own_id@,
                    devices@,
                    counts@,
                ),
        decreases rows.len() - i,
    {
        let ghost ids = tree_devices(rows@, i as int, own_id@);
        let ghost before = nodes@;
        let row = &rows[i];
        let device_id = home_device_of(row.remote_only, &row.origin_device_id, own_id);
        let shown = show_source(row, own_id, devices, counts);
        let ghost device = device_id@;
        proof {
            lemma_tree_devices_differ(rows@, i as int, own_id@);
            assert(device == row_device(rows@[i as int], own_id@));
            assert forall|k: int| 0 <= k < before.len() implies (#[trigger] before[k]).device_id@
                == ids[k] by {}
        }
        match find_node(&nodes, device_id.as_str()) {
            Some(at) => {
                assert(ids[at as int] == device);
                assert(ids.contains(device));
                nodes[at].sources.push(shown);
                proof {
                    assert(nodes@.len() == before.len());
                    assert forall|k: int| 0 <= k < nodes@.len() implies shows_device(
                        #[trigger] nodes@[k],
                        ids[k],
                        rows@,
                        i + 1,
                        own_id@,
                        devices@,
                        counts@,
                    ) by {
                        assert(shows_device(
                            before[k],
                            ids[k],
                            rows@,
                            i as int,
                            own_id@,
                            devices@,
                            counts@,
                        ));
                        let was = device_rows(rows@, i as int, own_id@, ids[k]);
                        let now = device_rows(rows@, i + 1, own_id@, ids[k]);
                        if k == at {
                            assert(now == was.push(i as int));
                            assert forall|m: int| 0 <= m < now.len() implies shows_source(
                                #[trigger] nodes@[k].sources@[m],
                                rows@[now[m]],
                                own_id@,
                                devices@,
                                counts@,
                            ) by {
                                if m < was.len() {
                                    assert(nodes@[k].sources@[m] == before[k].sources@[m]);
                                }
                            }
                        } else {
                            assert(ids[k] != device);
                            assert(now == was);
                            assert(nodes@[k] == before[k]);
                        }
                    }
                }
            },
            None => {
                proof {
                    assert forall|k: int| 0 <= k < ids.len() implies ids[k] != device by {
                        assert(before[k].device_id@ == ids[k]);
                    }
                    assert(!ids.contains(device));
                    lemma_unseen_device_has_no_rows(rows@, i as int, own_id@, device);
                }
                let name = device_name(devices, device_id.as_str(), own_id);
                let mut sources: Vec<SourceAvailabilityDto> = Vec::new();
                sources.push(shown);
                nodes.push(SourceTreeNodeDto { device_id, device_name: name, sources });
                proof {
                    let new_ids = tree_devices(rows@, i + 1, own_id@);
                    assert(new_ids == ids.push(device));
                    assert forall|k: int| 0 <= k < nodes@.len() implies shows_device(
                        #[trigger] nodes@[k],
                        new_ids[k],
                        rows@,
                        i + 1,
                        own_id@,
                        devices@,
                        counts@,
                    ) by {
                        let was = device_rows(rows@, i as int, own_id@, new_ids[k]);
                        let now = device_rows(rows@, i + 1, own_id@, new_ids[k]);
                        if k < before.len() {
                            assert(shows_device(
                                before[k],
                                ids[k],
                                rows@,
                                i as int,
                                own_id@,
                                devices@,
                                counts@,
                            ));
                            assert(ids[k] != device);
                            assert(now == was);
                            assert(nodes@[k] == before[k]);
                        } else {
                            assert(now == was.push(i as int));
                            assert(now.len() == 1);
                        }
                    }
                }
            },
        }
        i = i + 1;
    }
    let ghost n = rows@.len() as int;
    let ghost ids = tree_devices(rows@, n, own_id@);
    let ghost built = nodes@;
    proof {
        lemma_tree_devices_differ(rows@, n, own_id@);
        assert forall|k: int| 0 <= k < built.len() implies (#[trigger] built[k]).device_id@
            == ids[k] by {}
    }
    match find_node(&nodes, own_id) {
        Some(at) => {
            assert(ids[at as int] == own_id@);
            assert(ids.contains(own_id@));
            assert(ids.index_of(own_id@) == at);
            let node = nodes.remove(at);
            nodes.insert(0, node);
            proof {
                let order = own_first(ids, own_id@);
                assert(nodes@.len() == order.len());
                assert forall|k: int| 0 <= k < order.len() implies shows_device(
                    #[trigger] nodes@[k],
                    order[k],
                    rows@,
                    n,
                    own_id@,
                    devices@,
                    counts@,
                ) by {
                    let from = if k == 0 {
                        at as int
                    } else if k - 1 < at {
                        k - 1
                    } else {
                        k
                    };
                    assert(nodes@[k] == built[from]);
                    assert(order[k] == ids[from]);
                }
            }
        },
        None => {
            proof {
                assert forall|k: int| 0 <= k < ids.len() implies ids[k] != own_id@ by {
                    assert(built[k].device_id@ == ids[k]);
                }
                assert(!ids.contains(own_id@));
            }
        },
    }
    nodes
}

/// Where this device has sources, it comes first.
pub proof fn law_own_device_comes_first(ids: Seq<Seq<char>>, own_id: Seq<char>)
    requires
        ids.contains(own_id),
    ensures
        own_first(ids, own_id).len() == ids.len(),
        own_first(ids, own_id)[0] == own_id,
{
    let i = ids.index_of(own_id);
    assert(0 <= i < ids.len());
}

/// Every source is shown, below exactly one device: that of its row.
pub proof fn law_every_source_is_shown_once(
    rows: Seq<SourceRow>,
    n: int,
    own_id: Seq<char>,
    i: int,
)
    requires
        0 <= i < n <= rows.len(),
    ensures
        tree_devices(rows, n, own_id).contains(row_device(rows[i], own_id)),
        device_rows(rows, n, own_id, row_device(rows[i], own_id)).contains(i),
        forall|device: Seq<char>| #[trigger]
            device_rows(rows, n, own_id, device).contains(i) ==> device == row_device(
                rows[i],
                own_id,
            ),
    decreases n,
{
    let device = row_device(rows[i], own_id);
    let before = tree_devices(rows, n - 1, own_id);
    let here = row_device(rows[n - 1], own_id);
    if i < n - 1 {
        law_every_source_is_shown_once(rows, n - 1, own_id, i);
        let k = choose|k: int| 0 <= k < before.len() && before[k] == device;
        if !before.contains(here) {
            assert(before.push(here)[k] == device);
        }
        let was = device_rows(rows, n - 1, own_id, device);
        let m = choose|m: int| 0 <= m < was.len() && was[m] == i;
        assert(device_rows(rows, n, own_id, device)[m] == i);
    } else {
        if !before.contains(here) {
            assert(before.push(here)[before.len() as int] == here);
        }
        let was = device_rows(rows, n - 1, own_id, device);
        assert(device_rows(rows, n, own_id, device)[was.len() as int] == i);
    }
    assert forall|other: Seq<char>| #[trigger]
        device_rows(rows, n, own_id, other).contains(i) implies other == device by {
        lemma_device_rows_belong(rows, n, own_id, other, i);
    }
}

proof fn lemma_device_rows_belong(
    rows: Seq<SourceRow>,
    n: int,
    own_id: Seq<char>,
    device: Seq<char>,
    i: int,
)
    requires
        n <= rows.len(),
        device_rows(rows, n, own_id, device).contains(i),
    ensures
        0 <= i < n,
        row_device(rows[i], own_id) == device,
    decreases n,
{
    if n > 0 {
        let now = device_rows(rows, n, own_id, device);
        let was = device_rows(rows, n - 1, own_id, device);
        let k = choose|k: int| 0 <= k < now.len() && now[k] == i;
        if k < was.len() {
            assert(was[k] == i);
            lemma_device_rows_belong(rows, n - 1, own_id, device, i);
        }
    }
}

// ------------------------------------------------------------------
// Searching
// ------------------------------------------------------------------

/// A parameter of a statement.
pub enum SqlParam {
    Text(String),
    Number(i64),
}

/// A statement with its parameters.
pub struct BookQuery {
    pub sql: String,
    pub params: Vec<SqlParam>,
}

/// The expression that removes one ending of a path.
pub open spec fn strip_case(
    path_expr: Seq<char>,
    ending: Seq<char>,
    length: Seq<char>,
    behind: Seq<char>,
) -> Seq<char> {
    " WHEN lower("@ + path_expr + ") LIKE '%"@ + ending + "' THEN substr("@ + path_expr
        + ", 1, length("@ + path_expr + ") - "@ + length + ")"@ + behind
}

fn push_case(sql: &mut String, path_expr: &str, ending: &str, length: &str, behind: &str)
    ensures
        final(sql)@ == old(sql)@ + strip_case(path_expr@, ending@, length@, behind@),
{
    let mut part = cat5(" WHEN lower(", path_expr, ") LIKE '%", ending, "' THEN substr(");
    part.append(path_expr);
    part.append(", 1, length(");
    part.append(path_expr);
    part.append(") - ");
    part.append(length);
    part.append(")");
    part.append(behind);
    sql.append(part.as_str());
}

/// The expression for the path under which a book is known.
pub open spec fn library_path_sql(path_expr: Seq<char>) -> Seq<char> {
    "CASE"@ + strip_case(path_expr, ".cbz"@, "4"@, ""@) + strip_case(path_expr, ".zip"@, "4"@, ""@)
        + strip_case(path_expr, ".cbr"@, "4"@, ""@) + strip_case(path_expr, ".rar"@, "4"@, ""@)
        + strip_case(path_expr, ".cb7"@, "4"@, ""@) + strip_case(path_expr, ".7z"@, "3"@, ""@)
        + strip_case(path_expr, ".cbt"@, "4"@, ""@) + strip_case(path_expr, ".tar"@, "4"@, ""@)
        + strip_case(path_expr, ".azw3"@, "5"@, " || '.mobi'"@) + strip_case(
        path_expr,
        ".azw"@,
        "4"@,
        " || '.mobi'"@,
    ) + " ELSE "@ + path_expr + " END"@
}

/// The expression for the path under which a book is known.
pub fn normalized_library_path_sql(path_expr: &str) -> (r: String)
    ensures
        r@ == library_path_sql(path_expr@),
{
    let mut sql = "CASE".to_owned();
    push_case(&mut sql, path_expr, ".cbz", "4", "");
    push_case(&mut sql, path_expr, ".zip", "4", "");
    push_case(&mut sql, path_expr, ".cbr", "4", "");
    push_case(&mut sql, path_expr, ".rar", "4", "");
    push_case(&mut sql, path_expr, ".cb7", "4", "");
    push_case(&mut sql, path_expr, ".7z", "3", "");
    push_case(&mut sql, path_expr, ".cbt", "4", "");
    push_case(&mut sql, path_expr, ".tar", "4", "");
    push_case(&mut sql, path_expr, ".azw3", "5", " || '.mobi'");
    push_case(&mut sql, path_expr, ".azw", "4", " || '.mobi'");
    sql.append(" ELSE ");
    sql.append(path_expr);
    sql.append(" END");
    sql
}

/// The expression for the key of a book.
pub open spec fn book_key_sql() -> Seq<char> {
    "(s.type || '|' || s.id || '|' || "@ + library_path_sql("li.path"@) + ")"@
}

/// The part of the search statement that is always there.
pub open spec fn query_head() -> Seq<char> {
    "SELECT li.id, s.id, s.name, s.type, li.path, COALESCE(m.title, li.name), s.remote_only, s.origin_device_id, COALESCE(r.last_read_at, 0), s.username, s.password, s.refresh_token, s.cookie, s.client_secret, (SELECT GROUP_CONCAT(t.name, ',') FROM book_tags bt JOIN tags t ON t.id = bt.tag_id AND t.deleted = 0 WHERE bt.deleted = 0 AND bt.book_key = "@
        + book_key_sql()
        + ") FROM library_index li JOIN book_sources s ON s.id = li.source_id AND s.deleted = 0 LEFT JOIN book_metas m ON m.key = "@
        + book_key_sql() + " AND m.deleted = 0 LEFT JOIN read_records r ON r.key = "@
        + book_key_sql() + " AND r.deleted = 0 WHERE li.deleted = 0"@
}

/// The condition for a searched text, in parameter `q`; this device is in
/// parameter `own`.
pub open spec fn query_filter(q: nat, own: nat) -> Seq<char> {
    let n = decimal(q);
    " AND (li.name LIKE ?"@ + n + " OR li.path LIKE ?"@ + n + " OR m.title LIKE ?"@ + n
        + " OR m.chinese_title LIKE ?"@ + n + " OR m.series LIKE ?"@ + n + " OR m.author LIKE ?"@ + n
        + " OR s.name LIKE ?"@ + n
        + " OR EXISTS (SELECT 1 FROM sync_devices sd WHERE sd.device_id = COALESCE(s.origin_device_id, ?"@
        + decimal(own) + ") AND sd.device_name LIKE ?"@ + n + "))"@
}

/// The parameters `first` to `first + count - 1`, separated by commas.
pub open spec fn placeholders(first: nat, count: nat) -> Seq<char>
    decreases count,
{
    if count == 0 {
        Seq::<char>::empty()
    } else if count == 1 {
        "?"@ + decimal(first)
    } else {
        placeholders(first, (count - 1) as nat) + ","@ + "?"@ + decimal((first + count - 1) as nat)
    }
}

/// The condition for tags.
pub open spec fn tag_filter(first: nat, count: nat) -> Seq<char> {
    " AND EXISTS (SELECT 1 FROM book_tags bt JOIN tags t ON t.id = bt.tag_id AND t.deleted = 0 WHERE bt.deleted = 0 AND bt.book_key = "@
        + book_key_sql() + " AND t.name IN ("@ + placeholders(first, count) + "))"@
}

/// The search statement.
pub open spec fn book_query_sql(
    with_source: bool,
    with_query: bool,
    include_remote: bool,
    tag_count: nat,
) -> Seq<char> {
    let after_source: nat = if with_source {
        1
    } else {
        0
    };
    let after_query: nat = if with_query {
        after_source + 2
    } else {
        after_source
    };
    let after_tags: nat = after_query + tag_count;
    query_head() + (if with_source {
        " AND s.id = ?1"@
    } else {
        ""@
    }) + (if with_query {
        query_filter(after_source + 1, after_source + 2)
    } else {
        ""@
    }) + (if include_remote {
        ""@
    } else {
        " AND s.remote_only = 0"@
    }) + (if tag_count > 0 {
        tag_filter(after_query + 1, tag_count)
    } else {
        ""@
    }) + " ORDER BY title COLLATE NOCASE LIMIT ?"@ + decimal(after_tags + 1) + " OFFSET ?"@
        + decimal(after_tags + 2)
}

/// Whether `params` are the parameters of the search, in the order in which
/// the statement numbers them.
pub open spec fn are_query_params(
    params: Seq<SqlParam>,
    source_id: Option<Seq<char>>,
    own_id: Seq<char>,
    query: Seq<char>,
    tags: Seq<String>,
    limit: i64,
    offset: i64,
) -> bool {
    let a: int = if source_id is Some {
        1
    } else {
        0
    };
    let b: int = if is_blank(query) {
        a
    } else {
        a + 2
    };
    &&& params.len() == b + tags.len() + 2
    &&& source_id is Some ==> (params[0] matches SqlParam::Text(s) && s@ == source_id->0)
    &&& !is_blank(query) ==> (params[a] matches SqlParam::Text(q) && q@ == "%"@ + stripped(query)
        + "%"@)
    &&& !is_blank(query) ==> (params[a + 1] matches SqlParam::Text(o) && o@ == own_id)
    &&& forall|k: int|
        b <= k < b + tags.len() ==> #[trigger] params[k] == SqlParam::Text(tags[k - b])
    &&& params[b + tags.len() as int] == SqlParam::Number(limit)
    &&& params[b + tags.len() as int + 1] == SqlParam::Number(offset)
}

fn push_placeholders(sql: &mut String, first: u64, count: u64)
    requires
        first + count <= u64::MAX,
    ensures
        final(sql)@ == old(sql)@ + placeholders(first as nat, count as nat),
{
    let mut part = String::new();
    let mut i: u64 = 0;
    assert(part@ =~= placeholders(first as nat, 0));
    while i < count
        invariant
            i <= count,
            first + count <= u64::MAX,
            part@ == placeholders(first as nat, i as nat),
        decreases count - i,
    {
        let number = dec_u64(first + i);
        if i == 0 {
            part = cat2("?", number.as_str());
        } else {
            part.append(",");
            part.append("?");
            part.append(number.as_str());
        }
        i = i + 1;
    }
    sql.append(part.as_str());
}

/// Builds the search for books.
pub fn build_book_query(
    source_id: Option<&str>,
    own_id: &str,
    query: &str,
    tags: &Vec<String>,
    include_remote: bool,
    limit: i64,
    offset: i64,
) -> (r: BookQuery)
    requires
        tags@.len() + 10 <= u64::MAX,
    ensures
        r.sql@ == book_query_sql(
            source_id is Some,
            !is_blank(query@),
            include_remote,
            tags@.len(),
        ),
        are_query_params(
            r.params@,
            match source_id {
                Some(s) => Some(s@),
                None => None,
            },
            own_id@,
            query@,
            tags@,
            limit,
            offset,
        ),
{
    let path_sql = normalized_library_path_sql("li.path");
    let key = cat3("(s.type || '|' || s.id || '|' || ", path_sql.as_str(), ")");
    let mut sql = "SELECT li.id, s.id, s.name, s.type, li.path, COALESCE(m.title, li.name), s.remote_only, s.origin_device_id, COALESCE(r.last_read_at, 0), s.username, s.password, s.refresh_token, s.cookie, s.client_secret, (SELECT GROUP_CONCAT(t.name, ',') FROM book_tags bt JOIN tags t ON t.id = bt.tag_id AND t.deleted = 0 WHERE bt.deleted = 0 AND bt.book_key = ".to_owned();
    sql.append(key.as_str());
    sql.append(
        ") FROM library_index li JOIN book_sources s ON s.id = li.source_id AND s.deleted = 0 LEFT JOIN book_metas m ON m.key = ",
    );
    sql.append(key.as_str());
    sql.append(" AND m.deleted = 0 LEFT JOIN read_records r ON r.key = ");
    sql.append(key.as_str());
    sql.append(" AND r.deleted = 0 WHERE li.deleted = 0");
    assert(sql@ == query_head());
    let mut params: Vec<SqlParam> = Vec::new();
    let mut used: u64 = 0;
    proof {
        reveal_strlit("");
        assert(forall|s: Seq<char>| #[trigger] (s + ""@) =~= s);
    }
    match source_id {
        Some(id) => {
            sql.append(" AND s.id = ?1");
            params.push(SqlParam::Text(id.to_owned()));
            used = 1;
        },
        None => {},
    }
    let ghost a = used as int;
    let bare = trim(query, CharClass::White);
    if !bare.as_str().is_empty() {
        let q = dec_u64(used + 1);
        let own = dec_u64(used + 2);
        let mut f = cat3(" AND (li.name LIKE ?", q.as_str(), " OR li.path LIKE ?");
        f.append(q.as_str());
        f.append(" OR m.title LIKE ?");
        f.append(q.as_str());
        f.append(" OR m.chinese_title LIKE ?");
        f.append(q.as_str());
        f.append(" OR m.series LIKE ?");
        f.append(q.as_str());
        f.append(" OR m.author LIKE ?");
        f.append(q.as_str());
        f.append(" OR s.name LIKE ?");
        f.append(q.as_str());
        f.append(
            " OR EXISTS (SELECT 1 FROM sync_devices sd WHERE sd.device_id = COALESCE(s.origin_device_id, ?",
        );
        f.append(own.as_str());
        f.append(") AND sd.device_name LIKE ?");
        f.append(q.as_str());
        f.append("))");
        sql.append(f.as_str());
        params.push(SqlParam::Text(cat3("%", bare.as_str(), "%")));
        params.push(SqlParam::Text(own_id.to_owned()));
        used = used + 2;
    }
    let ghost b = used as int;
    if !include_remote {
        sql.append(" AND s.remote_only = 0");
    }
    if tags.len() > 0 {
        let mut f = " AND EXISTS (SELECT 1 FROM book_tags bt JOIN tags t ON t.id = bt.tag_id AND t.deleted = 0 WHERE bt.deleted = 0 AND bt.book_key = ".to_owned();
        f.append(key.as_str());
        f.append(" AND t.name IN (");
        push_placeholders(&mut f, used + 1, tags.len() as u64);
        f.append("))");
        sql.append(f.as_str());
    }
    let ghost head = params@;
    let mut i: usize = 0;
    while i < tags.len()
        invariant
            i <= tags.len(),
            head.len() == b,
            params@.len() == b + i,
            forall|j: int| 0 <= j < b ==> #[trigger] params@[j] == head[j],
            forall|j: int| b <= j < b + i ==> #[trigger] params@[j] == SqlParam::Text(tags@[j - b]),
        decreases tags.len() - i,
    {
        params.push(SqlParam::Text(tags[i].clone()));
        i = i + 1;
    }
    used = used + tags.len() as u64;
    params.push(SqlParam::Number(limit));
    params.push(SqlParam::Number(offset));
    let l = dec_u64(used + 1);
    let o = dec_u64(used + 2);
    sql.append(" ORDER BY title COLLATE NOCASE LIMIT ?");
    sql.append(l.as_str());
    sql.append(" OFFSET ?");
    sql.append(o.as_str());
    BookQuery { sql, params }
}

/// Builds the search across all sources.
pub fn db_search_books(
    own_id: &str,
    query: &str,
    tags: &Vec<String>,
    include_remote: bool,
    limit: i64,
    offset: i64,
) -> (r: BookQuery)
    requires
        tags@.len() + 10 <= u64::MAX,
    ensures
        r.sql@ == book_query_sql(false, !is_blank(query@), include_remote, tags@.len()),
        are_query_params(r.params@, None, own_id@, query@, tags@, limit, offset),
{
    build_book_query(None, own_id, query, tags, include_remote, limit, offset)
}

/// Builds the search within one source.
pub fn db_source_books(
    source_id: &str,
    own_id: &str,
    query: &str,
    tags: &Vec<String>,
    limit: i64,
    offset: i64,
) -> (r: BookQuery)
    requires
        tags@.len() + 10 <= u64::MAX,
    ensures
        r.sql@ == book_query_sql(true, !is_blank(query@), true, tags@.len()),
        are_query_params(r.params@, Some(source_id@), own_id@, query@, tags@, limit, offset),
{
    build_book_query(Some(source_id), own_id, query, tags, true, limit, offset)
}

/// A found book, as it is read from the database.
pub struct BookRow {
    pub book_id: String,
    pub source_id: String,
    pub source_name: String,
    pub source_type: String,
    pub path: String,
    pub title: String,
    pub remote_only: i64,
    pub origin_device_id: Option<String>,
    pub last_read_at: i64,
    pub credentials: Credentials,
    pub tags: Option<String>,
    /// Whether the path exists on this machine.
    pub path_exists: bool,
}

/// What is shown of a found book.
pub struct BookSearchDto {
    pub book_id: String,
    pub source_id: String,
    pub source_name: String,
    pub source_type: String,
    pub path: String,
    pub title: String,
    pub device_id: String,
    pub device_name: String,
    pub is_remote: bool,
    pub status: String,
    pub last_read_at: i64,
    pub tags: String,
}

/// Whether `dto` is what is shown of a found book.
pub open spec fn shows_book(
    dto: BookSearchDto,
    row: BookRow,
    own_id: Seq<char>,
    devices: Seq<DeviceEntry>,
) -> bool {
    let device = home_device(row.remote_only, row.origin_device_id, own_id);
    &&& dto.book_id@ == row.book_id@ && dto.source_id@ == row.source_id@ && dto.source_name@
        == row.source_name@ && dto.source_type@ == row.source_type@ && dto.path@ == row.path@
        && dto.title@ == row.title@ && dto.last_read_at == row.last_read_at
    &&& dto.device_id@ == device
    &&& dto.device_name@ == shown_device_name(devices, device, own_id)
    &&& dto.is_remote == (row.remote_only != 0)
    &&& dto.status@ == availability(
        row.source_type@,
        row.remote_only == 0,
        is_file_source(row.source_type@) && row.path_exists,
        has_credentials(row.source_type@, row.credentials),
    )
    &&& dto.tags@ == text_or_empty(row.tags)
}

/// What is shown of the found books.
pub fn run_book_query(rows: &Vec<BookRow>, own_id: &str, devices: &Vec<DeviceEntry>) -> (r: Vec<
    BookSearchDto,
>)
    ensures
        r@.len() == rows@.len(),
        forall|i: int|
            0 <= i < r@.len() ==> shows_book(#[trigger] r@[i], rows@[i], own_id@, devices@),
{
    let mut out: Vec<BookSearchDto> = Vec::new();
    let mut i: usize = 0;
    while i < rows.len()
        invariant
            i <= rows.len(),
            out@.len() == i,
            forall|j: int|
                0 <= j < i ==> shows_book(#[trigger] out@[j], rows@[j], own_id@, devices@),
        decreases rows.len() - i,
    {
        let row = &rows[i];
        let is_remote = row.remote_only != 0;
        let credentials = cloud_has_credentials(row.source_type.as_str(), &row.credentials);
        let is_file = same(row.source_type.as_str(), "local") || same(
            row.source_type.as_str(),
            "smb",
        );
        let status = source_status(
            row.source_type.as_str(),
            !is_remote,
            is_file && row.path_exists,
            credentials,
        ).to_owned();
        let device_id = home_device_of(row.remote_only, &row.origin_device_id, own_id);
        let name = device_name(devices, device_id.as_str(), own_id);
        out.push(
            BookSearchDto {
                book_id: row.book_id.clone(),
                source_id: row.source_id.clone(),
                source_name: row.source_name.clone(),
                source_type: row.source_type.clone(),
                path: row.path.clone(),
                title: row.title.clone(),
                device_id,
                device_name: name,
                is_remote,
                status,
                last_read_at: row.last_read_at,
                tags: or_empty(&row.tags),
            },
        );
        i = i + 1;
    }
    out
}

// ------------------------------------------------------------------
// Browsing the index
// ------------------------------------------------------------------

/// A row of the index of a source.
pub struct LibIndexRow {
    pub parent_id: Option<String>,
    pub deleted: bool,
    pub entry: LibEntryDto,
}

/// An entry of the index of a source.
pub struct LibEntryDto {
    pub id: String,
    pub name: String,
    pub path: String,
    pub entry_type: String,
    pub size: Option<i64>,
    pub modified_at: Option<i64>,
    pub cover_path: Option<String>,
    pub hash: Option<String>,
}

/// Whether a row stands directly below a directory.
pub open spec fn is_below(row: LibIndexRow, parent_id: Seq<char>) -> bool {
    !row.deleted && opt_text(row.parent_id) == Some(parent_id)
}

/// The positions of the rows below a directory among the first `n`.
pub open spec fn rows_below(rows: Seq<LibIndexRow>, parent_id: Seq<char>, n: int) -> Seq<int>
    decreases n,
{
    if n <= 0 {
        Seq::<int>::empty()
    } else if is_below(rows[n - 1], parent_id) {
        rows_below(rows, parent_id, n - 1).push(n - 1)
    } else {
        rows_below(rows, parent_id, n - 1)
    }
}

/// The key that puts directories before files, and each of them in the
/// order of their names.
pub open spec fn browse_key(entry: LibEntryDto) -> Seq<Token> {
    seq![
        (
            if entry.entry_type@ == "file"@ {
                1u32
            } else {
                0u32
            },
            0u64,
        ),
    ] + plain_key(entry.name@)
}

/// The keys of the rows at some positions.
pub open spec fn browse_keys(rows: Seq<LibIndexRow>, at: Seq<int>) -> Seq<Seq<Token>> {
    Seq::new(at.len(), |i: int| browse_key(rows[at[i]].entry))
}

fn browse_key_of(entry: &LibEntryDto) -> (r: Vec<Token>)
    ensures
        r@ == browse_key(*entry),
{
    let mut out: Vec<Token> = Vec::new();
    if same(entry.entry_type.as_str(), "file") {
        out.push((1u32, 0u64));
    } else {
        out.push((0u32, 0u64));
    }
    let ghost head = out@;
    let mut tail = plain_key_of(entry.name.as_str());
    out.append(&mut tail);
    assert(out@ =~= head + plain_key(entry.name@));
    assert(out@ =~= browse_key(*entry));
    out
}

fn copy_entry(entry: &LibEntryDto) -> (r: LibEntryDto)
    ensures
        r == *entry,
{
    LibEntryDto {
        id: entry.id.clone(),
        name: entry.name.clone(),
        path: entry.path.clone(),
        entry_type: entry.entry_type.clone(),
        size: entry.size,
        modified_at: entry.modified_at,
        cover_path: entry.cover_path.clone(),
        hash: entry.hash.clone(),
    }
}

/// The entries of a directory of a source: directories first, each kind in
/// the order of its names. `parent_id` is missing where the source is not
/// known; then there are none.
pub fn db_source_dir_entries(rows: &Vec<LibIndexRow>, parent_id: &Option<String>) -> (r: Vec<
    LibEntryDto,
>)
    ensures
        match *parent_id {
            None => r.len() == 0,
            Some(id) => {
                let at = rows_below(rows@, id@, rows@.len() as int);
                let order = the_order(browse_keys(rows@, at));
                &&& stable_order_of(order, browse_keys(rows@, at), at.len() as int)
                &&& r.len() == at.len()
                &&& forall|k: int|
                    0 <= k < r.len() ==> #[trigger] r@[k] == rows@[at[order[k] as int]].entry
            },
        },
{
    let mut out: Vec<LibEntryDto> = Vec::new();
    let id = match parent_id {
        Some(id) => id,
        None => {
            return out;
        },
    };
    let mut found: Vec<usize> = Vec::new();
    let mut keys: Vec<Vec<Token>> = Vec::new();
    let mut i: usize = 0;
    while i < rows.len()
        invariant
            i <= rows.len(),
            found.len() == rows_below(rows@, id@, i as int).len(),
            keys.len() == found.len(),
            forall|j: int|
                0 <= j < found.len() ==> #[trigger] found@[j] < i && found@[j] == rows_below(
                    rows@,
                    id@,
                    i as int,
                )[j] && keys@[j]@ == browse_key(rows@[found@[j] as int].entry),
        decreases rows.len() - i,
    {
        let row = &rows[i];
        let below = match &row.parent_id {
            Some(parent) => same(parent.as_str(), id.as_str()),
            None => false,
        };
        if !row.deleted && below {
            let ghost before = rows_below(rows@, id@, i as int);
            let ghost found_before = found@;
            let ghost keys_before = keys@;
            found.push(i);
            keys.push(browse_key_of(&row.entry));
            proof {
                let now = rows_below(rows@, id@, i + 1);
                assert(now == before.push(i as int));
                assert forall|j: int| 0 <= j < found.len() implies #[trigger] found@[j] < i + 1
                    && found@[j] == now[j] && keys@[j]@ == browse_key(
                    rows@[found@[j] as int].entry,
                ) by {
                    if j < found_before.len() {
                        assert(found_before[j] == found@[j]);
                        assert(keys_before[j] == keys@[j]);
                    }
                }
            }
        }
        i = i + 1;
    }
    let ghost at = rows_below(rows@, id@, rows@.len() as int);
    let ghost ks = browse_keys(rows@, at);
    proof {
        assert forall|j: int| 0 <= j < keys.len() implies keys_of(keys@)[j] == ks[j] by {
            assert(found@[j] == at[j]);
        }
        assert(keys_of(keys@) =~= ks);
    }
    let order = stable_order(&keys);
    let mut k: usize = 0;
    while k < order.len()
        invariant
            at == rows_below(rows@, id@, rows@.len() as int),
            ks == browse_keys(rows@, at),
            order@ == the_order(ks),
            stable_order_of(order@, ks, at.len() as int),
            found.len() == at.len(),
            forall|j: int|
                0 <= j < found.len() ==> #[trigger] found@[j] < rows.len() && found@[j] == at[j],
            k <= order.len(),
            out.len() == k,
            forall|j: int|
                0 <= j < k ==> #[trigger] out@[j] == rows@[at[order@[j] as int]].entry,
        decreases order.len() - k,
    {
        assert(order@[k as int] < found@.len());
        assert(found@[order@[k as int] as int] < rows.len());
        out.push(copy_entry(&rows[found[order[k]]].entry));
        k = k + 1;
    }
    out
}

// ------------------------------------------------------------------
// What credentials and sources promise
// ------------------------------------------------------------------

proof fn lemma_kinds_differ()
    ensures
        "webdav"@ != "sftp"@,
        "webdav"@ != "baidu"@,
        "webdav"@ != "115"@,
        "webdav"@ != "quark"@,
        "sftp"@ != "baidu"@,
        "sftp"@ != "115"@,
        "sftp"@ != "quark"@,
        "baidu"@ != "115"@,
        "baidu"@ != "quark"@,
        "115"@ != "quark"@,
        "local"@ != "smb"@,
        "local"@ != "webdav"@,
        "local"@ != "sftp"@,
        "local"@ != "baidu"@,
        "local"@ != "115"@,
        "local"@ != "quark"@,
        "smb"@ != "webdav"@,
        "smb"@ != "sftp"@,
        "smb"@ != "baidu"@,
        "smb"@ != "115"@,
        "smb"@ != "quark"@,
{
    reveal_strlit("webdav");
    reveal_strlit("sftp");
    reveal_strlit("baidu");
    reveal_strlit("115");
    reveal_strlit("quark");
    reveal_strlit("local");
    reveal_strlit("smb");
    assert("webdav"@.len() == 6 && "sftp"@.len() == 4 && "baidu"@.len() == 5);
    assert("115"@.len() == 3 && "quark"@.len() == 5 && "local"@.len() == 5 && "smb"@.len() == 3);
    assert("baidu"@[0] == 'b' && "quark"@[0] == 'q' && "local"@[0] == 'l');
    assert("115"@[0] == '1' && "smb"@[0] == 's');
}

/// A WebDAV or SFTP source can be opened where a user name and a password
/// are stored, a Baidu source where a refresh token is, a 115 or Quark
/// source where a cookie is; none of them may be empty. Nothing else that is
/// stored counts, and no other kind of source has credentials.
pub proof fn law_each_kind_has_its_credentials(kind: Seq<char>, c: Credentials)
    ensures
        kind == "webdav"@ || kind == "sftp"@ ==> (has_credentials(kind, c) <==> (
        c.username matches Some(user) && user@.len() > 0 && (c.password matches Some(password)
            && password@.len() > 0))),
        kind == "baidu"@ ==> (has_credentials(kind, c) <==> (c.refresh_token matches Some(token)
            && token@.len() > 0)),
        kind == "115"@ || kind == "quark"@ ==> (has_credentials(kind, c) <==> (
        c.cookie matches Some(cookie) && cookie@.len() > 0)),
        kind != "webdav"@ && kind != "sftp"@ && kind != "baidu"@ && kind != "115"@ && kind
            != "quark"@ ==> !has_credentials(kind, c),
{
    lemma_kinds_differ();
}

/// Whether credentials suffice depends on the fields of the kind alone.
pub proof fn law_other_credentials_do_not_count(kind: Seq<char>, a: Credentials, b: Credentials)
    requires
        kind == "webdav"@ || kind == "sftp"@ ==> a.username == b.username && a.password
            == b.password,
        kind == "baidu"@ ==> a.refresh_token == b.refresh_token,
        kind == "115"@ || kind == "quark"@ ==> a.cookie == b.cookie,
    ensures
        has_credentials(kind, a) == has_credentials(kind, b),
{
    lemma_kinds_differ();
}

/// A source is read where it is a directory of this or a neighbouring machine
/// and is there; over the network where it is set up on this device and is
/// such a directory or has credentials; else only its index is looked at.
pub proof fn law_sources_are_read_as_they_can(
    kind: Seq<char>,
    set_up: bool,
    there: bool,
    credentials: bool,
)
    ensures
        availability(kind, set_up, there, credentials) == "read"@ <==> (kind == "local"@ || kind
            == "smb"@) && there,
        availability(kind, set_up, there, credentials) == "needs_network"@ <==> set_up && (if kind
            == "local"@ || kind == "smb"@ {
            !there
        } else {
            credentials
        }),
        availability(kind, set_up, there, credentials) == "index_only"@ <==> !set_up && !((kind
            == "local"@ || kind == "smb"@) && there) || (set_up && kind != "local"@ && kind
            != "smb"@ && !credentials),
{
    reveal_strlit("read");
    reveal_strlit("needs_network");
    reveal_strlit("index_only");
    assert("read"@.len() == 4 && "needs_network"@.len() == 13 && "index_only"@.len() == 10);
}

/// What is shown of a source follows from its row: one that came from
/// elsewhere is never read over the network, and one that needs the network
/// and has credentials says so; a directory never does.
pub proof fn law_shown_sources_tell_the_truth(
    dto: SourceAvailabilityDto,
    row: SourceRow,
    own_id: Seq<char>,
    devices: Seq<DeviceEntry>,
    counts: Seq<(String, i64)>,
)
    requires
        shows_source(dto, row, own_id, devices, counts),
    ensures
        dto.is_remote <==> row.remote_only != 0,
        dto.has_local_source <==> row.remote_only == 0,
        dto.has_local_resource <==> row.path_exists && (row.source_type@ == "local"@
            || row.source_type@ == "smb"@),
        row.remote_only != 0 ==> dto.status@ != "needs_network"@,
        dto.status@ == "read"@ <==> dto.has_local_resource,
        dto.requires_network ==> row.source_type@ != "local"@ && row.source_type@ != "smb"@,
        row.source_type@ == "115"@ || row.source_type@ == "quark"@ ==> (dto.requires_network <==> (
        row.credentials.cookie matches Some(cookie) && cookie@.len() > 0)),
        row.source_type@ == "baidu"@ ==> (dto.requires_network <==> (
        row.credentials.refresh_token matches Some(token) && token@.len() > 0)),
        dto.can_browse_offline <==> index_count(counts, row.id@) > 0,
        row.remote_only == 0 ==> dto.device_id@ == own_id,
        row.remote_only != 0 && row.origin_device_id is Some ==> dto.device_id@ == (
        row.origin_device_id->0)@,
        row.remote_only != 0 && row.origin_device_id is None ==> dto.device_id@ == own_id,
{
    lemma_kinds_differ();
    law_sources_are_read_as_they_can(
        row.source_type@,
        dto.has_local_source,
        dto.has_local_resource,
        dto.has_credentials,
    );
}

/// A found book is shown as readable exactly as its source is.
pub proof fn law_found_books_are_read_like_their_source(
    book: BookSearchDto,
    found: BookRow,
    dto: SourceAvailabilityDto,
    row: SourceRow,
    own_id: Seq<char>,
    devices: Seq<DeviceEntry>,
    counts: Seq<(String, i64)>,
)
    requires
        shows_book(book, found, own_id, devices),
        shows_source(dto, row, own_id, devices, counts),
        found.source_type@ == row.source_type@,
        found.credentials == row.credentials,
        found.remote_only == row.remote_only,
        found.origin_device_id == row.origin_device_id,
        found.path_exists == row.path_exists,
    ensures
        book.status@ == dto.status@,
        book.is_remote == dto.is_remote,
        book.device_id@ == dto.device_id@,
        book.device_name@ == dto.device_name@,
{
}

/// A device that is known is shown by the name that came first for it; one
/// that is not by a word of its own, another for this device than for
/// others.
pub proof fn law_known_devices_have_their_names(
    devices: Seq<DeviceEntry>,
    id: Seq<char>,
    own_id: Seq<char>,
    i: int,
)
    ensures
        0 <= i < devices.len() && devices[i].device_id@ == id && (forall|j: int|
            0 <= j < i ==> (#[trigger] devices[j]).device_id@ != id) ==> shown_device_name(
            devices,
            id,
            own_id,
        ) == devices[i].device_name@,
        (forall|j: int| 0 <= j < devices.len() ==> (#[trigger] devices[j]).device_id@ != id)
            ==> shown_device_name(devices, id, own_id) == (if id == own_id {
            "本机"@
        } else {
            "其他设备"@
        }),
    decreases devices.len(),
{
    if devices.len() > 0 {
        let rest = devices.drop_first();
        law_known_devices_have_their_names(rest, id, own_id, i - 1);
        if 0 < i < devices.len() {
            assert(rest[i - 1] == devices[i]);
        }
        if 0 <= i < devices.len() && (forall|j: int|
            0 <= j < i ==> (#[trigger] devices[j]).device_id@ != id) {
            assert forall|j: int| 0 <= j < i - 1 implies (#[trigger] rest[j]).device_id@ != id by {
                assert(rest[j] == devices[j + 1]);
            }
            if i > 0 {
                assert(devices[0].device_id@ != id);
            }
        }
        if forall|j: int| 0 <= j < devices.len() ==> (#[trigger] devices[j]).device_id@ != id {
            assert forall|j: int| 0 <= j < rest.len() implies (#[trigger] rest[j]).device_id@
                != id by {
                assert(rest[j] == devices[j + 1]);
            }
            assert(devices[0].device_id@ != id);
        }
    }
}

// ------------------------------------------------------------------
// What the keys of books promise
// ------------------------------------------------------------------

proof fn lemma_lowered_both(p: Seq<char>, e: Seq<char>)
    ensures
        lowered(p + e) == lowered(p) + lowered(e),
{
    assert(lowered(p + e) =~= lowered(p) + lowered(e));
}

proof fn lemma_ends_of_both(p: Seq<char>, e: Seq<char>, needle: Seq<char>)
    requires
        needle.len() > 0,
    ensures
        e == needle ==> ends(p + e, needle),
        forall|k: int|
            1 <= k <= e.len() && k <= needle.len() && ends(p + e, needle) ==> e[e.len() - k]
                == #[trigger] needle[needle.len() - k],
{
    let s = p + e;
    if e == needle {
        assert(s.subrange(s.len() - needle.len(), s.len() as int) =~= needle);
    }
    if ends(s, needle) {
        let from = s.len() - needle.len();
        let part = s.subrange(from, from + needle.len());
        assert forall|k: int| 1 <= k <= e.len() && k <= needle.len() implies e[e.len() - k]
            == #[trigger] needle[needle.len() - k] by {
            assert(part[needle.len() - k] == s[s.len() - k]);
        }
    }
}

/// A book that is packed in another archive, its ending in any case, is the
/// same book: what is packed is known without the ending, and the Kindle
/// formats are known as one.
pub proof fn law_packed_copies_are_one_book(p: Seq<char>, ending: Seq<char>)
    ensures
        lowered(ending) == ".cbz"@ || lowered(ending) == ".zip"@ || lowered(ending) == ".cbr"@
            || lowered(ending) == ".rar"@ || lowered(ending) == ".cb7"@ || lowered(ending)
            == ".7z"@ || lowered(ending) == ".cbt"@ || lowered(ending) == ".tar"@ ==> library_path(
            p + ending,
        ) == p,
        lowered(ending) == ".azw3"@ || lowered(ending) == ".azw"@ ==> library_path(p + ending) == p
            + ".mobi"@,
{
    reveal_strlit(".cbz");
    reveal_strlit(".zip");
    reveal_strlit(".cbr");
    reveal_strlit(".rar");
    reveal_strlit(".cb7");
    reveal_strlit(".7z");
    reveal_strlit(".cbt");
    reveal_strlit(".tar");
    reveal_strlit(".azw3");
    reveal_strlit(".azw");
    let e = lowered(ending);
    let q = lowered(p);
    lemma_lowered_both(p, ending);
    assert(e.len() == ending.len());
    lemma_ends_of_both(q, e, ".cbz"@);
    lemma_ends_of_both(q, e, ".zip"@);
    lemma_ends_of_both(q, e, ".cbr"@);
    lemma_ends_of_both(q, e, ".rar"@);
    lemma_ends_of_both(q, e, ".cb7"@);
    lemma_ends_of_both(q, e, ".7z"@);
    lemma_ends_of_both(q, e, ".cbt"@);
    lemma_ends_of_both(q, e, ".tar"@);
    lemma_ends_of_both(q, e, ".azw3"@);
    lemma_ends_of_both(q, e, ".azw"@);
    let s = p + ending;
    assert(s.take(s.len() - ending.len()) =~= p);
    if e == ".7z"@ {
        assert(".cbz"@[2] == 'b' && ".7z"@[1] == '7');
        assert(".zip"@[3] == 'p' && ".cbr"@[3] == 'r' && ".rar"@[3] == 'r' && ".cb7"@[3] == '7');
        assert(".7z"@[2] == 'z');
    }
    if e == ".azw3"@ || e == ".azw"@ {
        assert(".azw3"@[4] == '3' && ".azw"@[3] == 'w');
        assert(".cbz"@[3] == 'z' && ".zip"@[3] == 'p' && ".cbr"@[3] == 'r' && ".rar"@[3] == 'r');
        assert(".cb7"@[3] == '7' && ".7z"@[2] == 'z' && ".cbt"@[3] == 't' && ".tar"@[3] == 'r');
    }
    if e == ".cbt"@ || e == ".tar"@ {
        assert(".7z"@[2] == 'z' && ".cbt"@[3] == 't' && ".tar"@[3] == 'r');
    }
}

/// A path without the ending of an archive or of a Kindle format is the key
/// itself; the key of a key is the key.
pub proof fn law_other_books_keep_their_path(path: Seq<char>)
    requires
        !ends(lowered(path), ".cbz"@),
        !ends(lowered(path), ".zip"@),
        !ends(lowered(path), ".cbr"@),
        !ends(lowered(path), ".rar"@),
        !ends(lowered(path), ".cb7"@),
        !ends(lowered(path), ".7z"@),
        !ends(lowered(path), ".cbt"@),
        !ends(lowered(path), ".tar"@),
        !ends(lowered(path), ".azw3"@),
        !ends(lowered(path), ".azw"@),
    ensures
        library_path(path) == path,
{
}

/// What the statement of a search does to a path: for each rule, in order,
/// an ending, the number of characters that are cut off, and whether a
/// Kindle format is named instead.
pub open spec fn cut_by_rules(path: Seq<char>, rules: Seq<(Seq<char>, nat, bool)>) -> Seq<char>
    decreases rules.len(),
{
    if rules.len() == 0 {
        path
    } else if ends(lowered(path), rules[0].0) {
        if rules[0].2 {
            path.take(path.len() - rules[0].1) + ".mobi"@
        } else {
            path.take(path.len() - rules[0].1)
        }
    } else {
        cut_by_rules(path, rules.drop_first())
    }
}

/// `sql` and the cases of the rules behind it.
pub open spec fn rule_cases(
    sql: Seq<char>,
    path_expr: Seq<char>,
    rules: Seq<(Seq<char>, nat, bool)>,
) -> Seq<char>
    decreases rules.len(),
{
    if rules.len() == 0 {
        sql
    } else {
        let (ending, cut, kindle) = rules.last();
        rule_cases(sql, path_expr, rules.drop_last()) + (" WHEN lower("@ + path_expr
            + ") LIKE '%"@ + ending + "' THEN substr("@ + path_expr + ", 1, length("@ + path_expr
            + ") - "@ + decimal(cut) + ")"@ + (if kindle {
            " || '.mobi'"@
        } else {
            ""@
        }))
    }
}

proof fn lemma_small_decimals()
    ensures
        decimal(1) == "1"@,
        decimal(3) == "3"@,
        decimal(4) == "4"@,
        decimal(5) == "5"@,
{
    reveal_strlit("1");
    reveal_strlit("3");
    reveal_strlit("4");
    reveal_strlit("5");
    assert(decimal(1) =~= "1"@);
    assert(decimal(3) =~= "3"@);
    assert(decimal(4) =~= "4"@);
    assert(decimal(5) =~= "5"@);
}

/// The key that the statement of a search computes for a path is the key that
/// the library computes: both follow the same rules in the same order, each
/// of which cuts off as many characters as its ending has.
#[verifier::rlimit(40)]
pub proof fn law_searched_keys_are_the_keys_of_books(path: Seq<char>, path_expr: Seq<char>)
    ensures
        ({
            let rules = seq![
                (".cbz"@, 4nat, false),
                (".zip"@, 4nat, false),
                (".cbr"@, 4nat, false),
                (".rar"@, 4nat, false),
                (".cb7"@, 4nat, false),
                (".7z"@, 3nat, false),
                (".cbt"@, 4nat, false),
                (".tar"@, 4nat, false),
                (".azw3"@, 5nat, true),
                (".azw"@, 4nat, true),
            ];
            &&& library_path(path) == cut_by_rules(path, rules)
            &&& library_path_sql(path_expr) == rule_cases("CASE"@, path_expr, rules) + " ELSE "@
                + path_expr + " END"@
            &&& forall|i: int| 0 <= i < rules.len() ==> (#[trigger] rules[i]).0.len() == rules[i].1
        }),
{
    reveal_strlit(".cbz");
    reveal_strlit(".zip");
    reveal_strlit(".cbr");
    reveal_strlit(".rar");
    reveal_strlit(".cb7");
    reveal_strlit(".7z");
    reveal_strlit(".cbt");
    reveal_strlit(".tar");
    reveal_strlit(".azw3");
    reveal_strlit(".azw");
    lemma_small_decimals();
    let r10 = seq![
        (".cbz"@, 4nat, false),
        (".zip"@, 4nat, false),
        (".cbr"@, 4nat, false),
        (".rar"@, 4nat, false),
        (".cb7"@, 4nat, false),
        (".7z"@, 3nat, false),
        (".cbt"@, 4nat, false),
        (".tar"@, 4nat, false),
        (".azw3"@, 5nat, true),
        (".azw"@, 4nat, true),
    ];
    assert(r10.len() == 10);
    assert(r10.take(10) =~= r10);
    let x = path_expr;
    let c = "CASE"@;
    let s0 = rule_cases(c, x, r10.take(0));
    assert(r10.take(1).drop_last() =~= r10.take(0));
    let s1 = rule_cases(c, x, r10.take(1));
    assert(s1 == s0 + strip_case(x, ".cbz"@, "4"@, ""@));
    assert(r10.take(2).drop_last() =~= r10.take(1));
    let s2 = rule_cases(c, x, r10.take(2));
    assert(s2 == s1 + strip_case(x, ".zip"@, "4"@, ""@));
    assert(r10.take(3).drop_last() =~= r10.take(2));
    let s3 = rule_cases(c, x, r10.take(3));
    assert(s3 == s2 + strip_case(x, ".cbr"@, "4"@, ""@));
    assert(r10.take(4).drop_last() =~= r10.take(3));
    let s4 = rule_cases(c, x, r10.take(4));
    assert(s4 == s3 + strip_case(x, ".rar"@, "4"@, ""@));
    assert(r10.take(5).drop_last() =~= r10.take(4));
    let s5 = rule_cases(c, x, r10.take(5));
    assert(s5 == s4 + strip_case(x, ".cb7"@, "4"@, ""@));
    assert(r10.take(6).drop_last() =~= r10.take(5));
    let s6 = rule_cases(c, x, r10.take(6));
    assert(s6 == s5 + strip_case(x, ".7z"@, "3"@, ""@));
    assert(r10.take(7).drop_last() =~= r10.take(6));
    let s7 = rule_cases(c, x, r10.take(7));
    assert(s7 == s6 + strip_case(x, ".cbt"@, "4"@, ""@));
    assert(r10.take(8).drop_last() =~= r10.take(7));
    let s8 = rule_cases(c, x, r10.take(8));
    assert(s8 == s7 + strip_case(x, ".tar"@, "4"@, ""@));
    assert(r10.take(9).drop_last() =~= r10.take(8));
    let s9 = rule_cases(c, x, r10.take(9));
    assert(s9 == s8 + strip_case(x, ".azw3"@, "5"@, " || '.mobi'"@));
    assert(r10.take(10).drop_last() =~= r10.take(9));
    let s10 = rule_cases(c, x, r10.take(10));
    assert(s10 == s9 + strip_case(x, ".azw"@, "4"@, " || '.mobi'"@));
    lemma_cut_by_ten_rules(path);
}

proof fn lemma_cut_by_ten_rules(path: Seq<char>)
    ensures
        library_path(path) == cut_by_rules(
            path,
            seq![
                (".cbz"@, 4nat, false),
                (".zip"@, 4nat, false),
                (".cbr"@, 4nat, false),
                (".rar"@, 4nat, false),
                (".cb7"@, 4nat, false),
                (".7z"@, 3nat, false),
                (".cbt"@, 4nat, false),
                (".tar"@, 4nat, false),
                (".azw3"@, 5nat, true),
                (".azw"@, 4nat, true),
            ],
        ),
{
    reveal_with_fuel(cut_by_rules, 12);
}

// ------------------------------------------------------------------
// What a search finds
// ------------------------------------------------------------------

/// A row of the index with what belongs to it in the other tables.
pub struct IndexedBook {
    pub deleted: bool,
    pub name: Seq<char>,
    pub path: Seq<char>,
    pub source_id: Seq<char>,
    pub source_name: Seq<char>,
    pub source_deleted: bool,
    pub remote_only: bool,
    pub origin_device: Option<Seq<char>>,
    /// What is stored of the book itself and not deleted.
    pub title: Option<Seq<char>>,
    pub chinese_title: Option<Seq<char>>,
    pub series: Option<Seq<char>>,
    pub author: Option<Seq<char>>,
    /// The names of its tags, the deleted ones left out.
    pub tags: Set<Seq<char>>,
}

/// A condition of the search statement; numbers are those of parameters.
pub enum SearchCondition {
    NotDeleted,
    OfSource { id: nat },
    Mentions { pattern: nat, own: nat },
    KeptHere,
    Tagged { first: nat, count: nat },
}

/// The condition as the statement has it.
pub open spec fn condition_sql(c: SearchCondition) -> Seq<char> {
    match c {
        SearchCondition::NotDeleted => " WHERE li.deleted = 0"@,
        SearchCondition::OfSource { id } => " AND s.id = ?"@ + decimal(id),
        SearchCondition::Mentions { pattern, own } => {
            let n = decimal(pattern);
            " AND (li.name LIKE ?"@ + n + " OR li.path LIKE ?"@ + n + " OR m.title LIKE ?"@ + n
                + " OR m.chinese_title LIKE ?"@ + n + " OR m.series LIKE ?"@ + n
                + " OR m.author LIKE ?"@ + n + " OR s.name LIKE ?"@ + n
                + " OR EXISTS (SELECT 1 FROM sync_devices sd WHERE sd.device_id = COALESCE(s.origin_device_id, ?"@
                + decimal(own) + ") AND sd.device_name LIKE ?"@ + n + "))"@
        },
        SearchCondition::KeptHere => " AND s.remote_only = 0"@,
        SearchCondition::Tagged { first, count } => {
            " AND EXISTS (SELECT 1 FROM book_tags bt JOIN tags t ON t.id = bt.tag_id AND t.deleted = 0 WHERE bt.deleted = 0 AND bt.book_key = "@
                + book_key_sql() + " AND t.name IN ("@ + joined(
                Seq::new(count, |k: int| "?"@ + decimal((first + k) as nat)),
                ","@,
            ) + "))"@
        },
    }
}

/// `sql` and the conditions behind it.
pub open spec fn with_conditions(sql: Seq<char>, cs: Seq<SearchCondition>) -> Seq<char>
    decreases cs.len(),
{
    if cs.len() == 0 {
        sql
    } else {
        with_conditions(sql, cs.drop_last()) + condition_sql(cs.last())
    }
}

/// The text of the parameter with this number.
pub open spec fn text_of_parameter(params: Seq<SqlParam>, number: nat) -> Seq<char> {
    match params[number - 1] {
        SqlParam::Text(s) => s@,
        _ => Seq::<char>::empty(),
    }
}

/// Whether a book mentions a pattern in its name, its path, what is stored of
/// it, its source or the name of its device. `like` is the comparison of the
/// database, `devices` are the known devices with their names.
pub open spec fn mentions(
    book: IndexedBook,
    pattern: Seq<char>,
    own_id: Seq<char>,
    devices: Set<(Seq<char>, Seq<char>)>,
    like: spec_fn(Seq<char>, Seq<char>) -> bool,
) -> bool {
    let device = match book.origin_device {
        Some(id) => id,
        None => own_id,
    };
    ||| like(book.name, pattern)
    ||| like(book.path, pattern)
    ||| (book.title is Some && like(book.title->0, pattern))
    ||| (book.chinese_title is Some && like(book.chinese_title->0, pattern))
    ||| (book.series is Some && like(book.series->0, pattern))
    ||| (book.author is Some && like(book.author->0, pattern))
    ||| like(book.source_name, pattern)
    ||| exists|name: Seq<char>| #[trigger] devices.contains((device, name)) && like(name, pattern)
}

/// Whether a book meets a condition, given the parameters.
pub open spec fn meets(
    book: IndexedBook,
    c: SearchCondition,
    params: Seq<SqlParam>,
    devices: Set<(Seq<char>, Seq<char>)>,
    like: spec_fn(Seq<char>, Seq<char>) -> bool,
) -> bool {
    match c {
        SearchCondition::NotDeleted => !book.deleted,
        SearchCondition::OfSource { id } => book.source_id == text_of_parameter(params, id),
        SearchCondition::Mentions { pattern, own } => mentions(
            book,
            text_of_parameter(params, pattern),
            text_of_parameter(params, own),
            devices,
            like,
        ),
        SearchCondition::KeptHere => !book.remote_only,
        SearchCondition::Tagged { first, count } => exists|k: nat|
            first <= k < first + count && book.tags.contains(
                #[trigger] text_of_parameter(params, k),
            ),
    }
}

/// Whether a book meets all of some conditions.
pub open spec fn meets_all(
    book: IndexedBook,
    cs: Seq<SearchCondition>,
    params: Seq<SqlParam>,
    devices: Set<(Seq<char>, Seq<char>)>,
    like: spec_fn(Seq<char>, Seq<char>) -> bool,
) -> bool {
    forall|i: int| 0 <= i < cs.len() ==> meets(book, #[trigger] cs[i], params, devices, like)
}

/// The conditions of a search.
pub open spec fn search_conditions(
    with_source: bool,
    with_query: bool,
    include_remote: bool,
    tag_count: nat,
) -> Seq<SearchCondition> {
    let a: nat = if with_source {
        1
    } else {
        0
    };
    let b: nat = if with_query {
        a + 2
    } else {
        a
    };
    let c0 = seq![SearchCondition::NotDeleted];
    let c1 = if with_source {
        c0.push(SearchCondition::OfSource { id: 1 })
    } else {
        c0
    };
    let c2 = if with_query {
        c1.push(SearchCondition::Mentions { pattern: a + 1, own: a + 2 })
    } else {
        c1
    };
    let c3 = if include_remote {
        c2
    } else {
        c2.push(SearchCondition::KeptHere)
    };
    if tag_count > 0 {
        c3.push(SearchCondition::Tagged { first: b + 1, count: tag_count })
    } else {
        c3
    }
}

proof fn lemma_placeholders_are_joined(first: nat, count: nat)
    ensures
        placeholders(first, count) == joined(
            Seq::new(count, |k: int| "?"@ + decimal((first + k) as nat)),
            ","@,
        ),
    decreases count,
{
    let parts = Seq::new(count, |k: int| "?"@ + decimal((first + k) as nat));
    if count == 0 {
        assert(placeholders(first, count) =~= joined(parts, ","@));
    } else if count > 1 {
        let less = Seq::new((count - 1) as nat, |k: int| "?"@ + decimal((first + k) as nat));
        lemma_placeholders_are_joined(first, (count - 1) as nat);
        assert(parts.drop_last() =~= less);
        let head = joined(less, ","@);
        assert(head + ","@ + "?"@ + decimal((first + count - 1) as nat) =~= head + ","@ + ("?"@
            + decimal((first + count - 1) as nat)));
    }
}

proof fn lemma_pushed_condition(sql: Seq<char>, cs: Seq<SearchCondition>, c: SearchCondition)
    ensures
        with_conditions(sql, cs.push(c)) == with_conditions(sql, cs) + condition_sql(c),
{
    assert(cs.push(c).drop_last() =~= cs);
}

proof fn lemma_where_clause(before: Seq<char>)
    ensures
        before + " AND r.deleted = 0 WHERE li.deleted = 0"@ == (before + " AND r.deleted = 0"@)
            + " WHERE li.deleted = 0"@,
{
    let x = " AND r.deleted = 0"@;
    let y = " WHERE li.deleted = 0"@;
    assert(" AND r.deleted = 0 WHERE li.deleted = 0"@ =~= x + y) by {
        reveal_strlit(" AND r.deleted = 0 WHERE li.deleted = 0");
        reveal_strlit(" AND r.deleted = 0");
        reveal_strlit(" WHERE li.deleted = 0");
    }
    assert(before + (x + y) =~= (before + x) + y);
}

proof fn lemma_first_source()
    ensures
        " AND s.id = ?"@ + decimal(1) == " AND s.id = ?1"@,
{
    reveal_strlit(" AND s.id = ?");
    reveal_strlit(" AND s.id = ?1");
    reveal_strlit("1");
    lemma_small_decimals();
    assert(" AND s.id = ?"@ + decimal(1) =~= " AND s.id = ?1"@);
}

proof fn lemma_statement_of_conditions(
    tables: Seq<char>,
    with_source: bool,
    with_query: bool,
    include_remote: bool,
    n: nat,
)
    requires
        query_head() == tables + " WHERE li.deleted = 0"@,
    ensures
        ({
            let a: nat = if with_source {
                1
            } else {
                0
            };
            let b: nat = if with_query {
                a + 2
            } else {
                a
            };
            book_query_sql(with_source, with_query, include_remote, n) == with_conditions(
                tables,
                search_conditions(with_source, with_query, include_remote, n),
            ) + " ORDER BY title COLLATE NOCASE LIMIT ?"@ + decimal(b + n + 1) + " OFFSET ?"@
                + decimal(b + n + 2)
        }),
{
    lemma_first_source();
    let a: nat = if with_source {
        1
    } else {
        0
    };
    let b: nat = if with_query {
        a + 2
    } else {
        a
    };
    let none = Seq::<SearchCondition>::empty();
    let c0 = seq![SearchCondition::NotDeleted];
    assert(none.push(SearchCondition::NotDeleted) =~= c0);
    lemma_pushed_condition(tables, none, SearchCondition::NotDeleted);
    let t0 = with_conditions(tables, c0);
    assert(t0 == query_head());
    assert(""@.len() == 0) by {
        reveal_strlit("");
    }
    let source = SearchCondition::OfSource { id: 1 };
    let c1 = if with_source {
        c0.push(source)
    } else {
        c0
    };
    lemma_pushed_condition(tables, c0, source);
    let t1 = with_conditions(tables, c1);
    assert(t1 == t0 + (if with_source {
        " AND s.id = ?1"@
    } else {
        ""@
    }));
    let text = SearchCondition::Mentions { pattern: a + 1, own: a + 2 };
    let c2 = if with_query {
        c1.push(text)
    } else {
        c1
    };
    lemma_pushed_condition(tables, c1, text);
    assert(condition_sql(text) == query_filter(a + 1, a + 2));
    let t2 = with_conditions(tables, c2);
    assert(t2 == t1 + (if with_query {
        query_filter(a + 1, a + 2)
    } else {
        ""@
    }));
    let c3 = if include_remote {
        c2
    } else {
        c2.push(SearchCondition::KeptHere)
    };
    lemma_pushed_condition(tables, c2, SearchCondition::KeptHere);
    let t3 = with_conditions(tables, c3);
    assert(t3 == t2 + (if include_remote {
        ""@
    } else {
        " AND s.remote_only = 0"@
    }));
    let tagged = SearchCondition::Tagged { first: b + 1, count: n };
    lemma_pushed_condition(tables, c3, tagged);
    lemma_placeholders_are_joined(b + 1, n);
    assert(condition_sql(tagged) == tag_filter(b + 1, n));
    let cs = search_conditions(with_source, with_query, include_remote, n);
    assert(with_conditions(tables, cs) == t3 + (if n > 0 {
        tag_filter(b + 1, n)
    } else {
        ""@
    }));
}

/// The search statement looks at the index with the sources that are not
/// deleted and has just the conditions of the search: that the book is not
/// deleted, and those of the request. It is cut off by the last two
/// parameters.
pub proof fn law_search_statement_has_its_conditions(
    source_id: Option<Seq<char>>,
    own_id: Seq<char>,
    query: Seq<char>,
    tags: Seq<String>,
    include_remote: bool,
    limit: i64,
    offset: i64,
    params: Seq<SqlParam>,
)
    requires
        are_query_params(params, source_id, own_id, query, tags, limit, offset),
    ensures
        ({
            let with_source = source_id is Some;
            let with_query = !is_blank(query);
            let key = "(s.type || '|' || s.id || '|' || "@ + library_path_sql("li.path"@) + ")"@;
            let tables =
                "SELECT li.id, s.id, s.name, s.type, li.path, COALESCE(m.title, li.name), s.remote_only, s.origin_device_id, COALESCE(r.last_read_at, 0), s.username, s.password, s.refresh_token, s.cookie, s.client_secret, (SELECT GROUP_CONCAT(t.name, ',') FROM book_tags bt JOIN tags t ON t.id = bt.tag_id AND t.deleted = 0 WHERE bt.deleted = 0 AND bt.book_key = "@
                + key
                + ") FROM library_index li JOIN book_sources s ON s.id = li.source_id AND s.deleted = 0 LEFT JOIN book_metas m ON m.key = "@
                + key + " AND m.deleted = 0 LEFT JOIN read_records r ON r.key = "@ + key
                + " AND r.deleted = 0"@;
            let cs = search_conditions(with_source, with_query, include_remote, tags.len());
            &&& book_query_sql(with_source, with_query, include_remote, tags.len())
                == with_conditions(tables, cs) + " ORDER BY title COLLATE NOCASE LIMIT ?"@
                + decimal((params.len() - 1) as nat) + " OFFSET ?"@ + decimal(params.len())
            &&& params[params.len() - 2] == SqlParam::Number(limit)
            &&& params[params.len() - 1] == SqlParam::Number(offset)
            &&& cs[0] == SearchCondition::NotDeleted
            &&& condition_sql(SearchCondition::NotDeleted) == " WHERE li.deleted = 0"@
            &&& condition_sql(SearchCondition::KeptHere) == " AND s.remote_only = 0"@
            &&& condition_sql(SearchCondition::OfSource { id: 1 }) == " AND s.id = ?1"@
        }),
{
    let key = book_key_sql();
    let before =
        "SELECT li.id, s.id, s.name, s.type, li.path, COALESCE(m.title, li.name), s.remote_only, s.origin_device_id, COALESCE(r.last_read_at, 0), s.username, s.password, s.refresh_token, s.cookie, s.client_secret, (SELECT GROUP_CONCAT(t.name, ',') FROM book_tags bt JOIN tags t ON t.id = bt.tag_id AND t.deleted = 0 WHERE bt.deleted = 0 AND bt.book_key = "@
        + key
        + ") FROM library_index li JOIN book_sources s ON s.id = li.source_id AND s.deleted = 0 LEFT JOIN book_metas m ON m.key = "@
        + key + " AND m.deleted = 0 LEFT JOIN read_records r ON r.key = "@ + key;
    lemma_where_clause(before);
    lemma_first_source();
    lemma_statement_of_conditions(
        before + " AND r.deleted = 0"@,
        source_id is Some,
        !is_blank(query),
        include_remote,
        tags.len(),
    );
}

/// A search finds a book exactly where neither it nor its source is deleted,
/// it is of the source that was asked for, mentions the text that was asked
/// for, is kept on this device where others were not asked for, and has one
/// of the tags that were asked for. The parameters hold what was asked for
/// at the numbers that the conditions name.
pub proof fn law_search_finds_what_was_asked_for(
    book: IndexedBook,
    source_id: Option<Seq<char>>,
    own_id: Seq<char>,
    query: Seq<char>,
    tags: Seq<String>,
    include_remote: bool,
    limit: i64,
    offset: i64,
    params: Seq<SqlParam>,
    devices: Set<(Seq<char>, Seq<char>)>,
    like: spec_fn(Seq<char>, Seq<char>) -> bool,
)
    requires
        are_query_params(params, source_id, own_id, query, tags, limit, offset),
    ensures
        ({
            let cs = search_conditions(
                source_id is Some,
                !is_blank(query),
                include_remote,
                tags.len(),
            );
            (!book.source_deleted && meets_all(book, cs, params, devices, like)) <==> (
            !book.source_deleted && !book.deleted && (source_id is Some ==> book.source_id
                == source_id->0) && (!is_blank(query) ==> mentions(
                book,
                "%"@ + stripped(query) + "%"@,
                own_id,
                devices,
                like,
            )) && (include_remote || !book.remote_only) && (tags.len() > 0 ==> exists|k: int|
                0 <= k < tags.len() && book.tags.contains(#[trigger] tags[k]@)))
        }),
{
    let with_source = source_id is Some;
    let with_query = !is_blank(query);
    let n = tags.len();
    let a: nat = if with_source {
        1
    } else {
        0
    };
    let b: nat = if with_query {
        a + 2
    } else {
        a
    };
    let cs = search_conditions(with_source, with_query, include_remote, n);
    let i1: int = 1;
    let i2: int = if with_source {
        2
    } else {
        1
    };
    let i3: int = if with_query {
        i2 + 1
    } else {
        i2
    };
    let i4: int = if include_remote {
        i3
    } else {
        i3 + 1
    };
    assert(cs[0] == SearchCondition::NotDeleted);
    if with_source {
        assert(cs[i1] == SearchCondition::OfSource { id: 1 });
        assert(text_of_parameter(params, 1) == source_id->0);
    }
    if with_query {
        assert(cs[i2] == SearchCondition::Mentions { pattern: a + 1, own: a + 2 });
        assert(text_of_parameter(params, a + 1) == "%"@ + stripped(query) + "%"@);
        assert(text_of_parameter(params, a + 2) == own_id);
    }
    if !include_remote {
        assert(cs[i3] == SearchCondition::KeptHere);
    }
    if n > 0 {
        let t = SearchCondition::Tagged { first: b + 1, count: n };
        assert(cs[i4] == t);
        assert forall|k: int| 0 <= k < n implies #[trigger] tags[k]@ == text_of_parameter(
            params,
            (b + 1 + k) as nat,
        ) by {
            assert(params[b + k] == SqlParam::Text(tags[b + k - b]));
        }
        if meets(book, t, params, devices, like) {
            let k = choose|k: nat|
                b + 1 <= k < b + 1 + n && book.tags.contains(#[trigger] text_of_parameter(params, k));
            assert(tags[k - b - 1]@ == text_of_parameter(params, k));
        }
        if exists|k: int| 0 <= k < n && book.tags.contains(#[trigger] tags[k]@) {
            let k = choose|k: int| 0 <= k < n && book.tags.contains(#[trigger] tags[k]@);
            assert(book.tags.contains(text_of_parameter(params, (b + 1 + k) as nat)));
        }
    }
    let found = !book.deleted && (source_id is Some ==> book.source_id == source_id->0) && (
    with_query ==> mentions(book, "%"@ + stripped(query) + "%"@, own_id, devices, like)) && (
    include_remote || !book.remote_only) && (n > 0 ==> exists|k: int|
        0 <= k < n && book.tags.contains(#[trigger] tags[k]@));
    assert(cs.len() == (if n > 0 {
        i4 + 1
    } else {
        i4
    }));
    if found {
        assert forall|i: int| 0 <= i < cs.len() implies meets(
            book,
            #[trigger] cs[i],
            params,
            devices,
            like,
        ) by {
            if i == 0 {
                assert(cs[0] == SearchCondition::NotDeleted);
            } else if i < i2 {
                assert(i == i1);
            } else if i < i3 {
                assert(i == i2);
            } else if i < i4 {
                assert(i == i3);
            } else {
                assert(i == i4);
            }
        }
    }
    if meets_all(book, cs, params, devices, like) {
        assert(meets(book, cs[0], params, devices, like));
        if with_source {
            assert(meets(book, cs[i1], params, devices, like));
        }
        if with_query {
            assert(meets(book, cs[i2], params, devices, like));
        }
        if !include_remote {
            assert(meets(book, cs[i3], params, devices, like));
        }
        if n > 0 {
            assert(meets(book, cs[i4], params, devices, like));
        }
        assert(found);
    }
}

// ------------------------------------------------------------------
// What the tree and the index show
// ------------------------------------------------------------------

/// The count of a source is the one that was stored last for it, and none
/// where none was.
pub proof fn law_last_count_of_a_source_counts(
    counts: Seq<(String, i64)>,
    id: String,
    count: i64,
    source_id: Seq<char>,
)
    ensures
        index_count(Seq::<(String, i64)>::empty(), source_id) == 0,
        index_count(counts.push((id, count)), source_id) == (if id@ == source_id {
            count
        } else {
            index_count(counts, source_id)
        }),
{
    assert(counts.push((id, count)).drop_last() =~= counts);
}

/// The tree has a node for each device that a source belongs to, and no
/// device twice; each source is below its own device, in the order of the
/// rows.
pub proof fn law_each_source_is_below_its_device(
    rows: Seq<SourceRow>,
    n: int,
    own_id: Seq<char>,
    device: Seq<char>,
    i: int,
)
    requires
        0 <= n <= rows.len(),
    ensures
        tree_devices(rows, n, own_id).contains(device) <==> exists|k: int|
            0 <= k < n && row_device(#[trigger] rows[k], own_id) == device,
        tree_devices(rows, n, own_id).no_duplicates(),
        device_rows(rows, n, own_id, device).contains(i) <==> 0 <= i < n && row_device(
            rows[i],
            own_id,
        ) == device,
        forall|a: int, b: int|
            0 <= a < b < device_rows(rows, n, own_id, device).len() ==> device_rows(
                rows,
                n,
                own_id,
                device,
            )[a] < device_rows(rows, n, own_id, device)[b],
        forall|a: int|
            0 <= a < device_rows(rows, n, own_id, device).len() ==> 0 <= #[trigger] device_rows(
                rows,
                n,
                own_id,
                device,
            )[a] < n,
    decreases n,
{
    lemma_tree_devices_differ(rows, n, own_id);
    if n > 0 {
        law_each_source_is_below_its_device(rows, n - 1, own_id, device, i);
        let before = tree_devices(rows, n - 1, own_id);
        let now = tree_devices(rows, n, own_id);
        let here = row_device(rows[n - 1], own_id);
        if before.contains(device) {
            let k = choose|k: int| 0 <= k < before.len() && before[k] == device;
            assert(now[k] == device);
        }
        if !before.contains(here) {
            assert(now[before.len() as int] == here);
            if now.contains(device) && device != here {
                let k = choose|k: int| 0 <= k < now.len() && now[k] == device;
                assert(before[k] == device);
            }
        }
        let was = device_rows(rows, n - 1, own_id, device);
        let is = device_rows(rows, n, own_id, device);
        if here == device {
            assert(is == was.push(n - 1));
            if was.contains(i) {
                let k = choose|k: int| 0 <= k < was.len() && was[k] == i;
                assert(is[k] == i);
            }
            assert(is[was.len() as int] == n - 1);
            if is.contains(i) && i != n - 1 {
                let k = choose|k: int| 0 <= k < is.len() && is[k] == i;
                assert(was[k] == i);
            }
        }
    }
}

/// This device comes first where it has sources; the others keep their
/// order, and none is lost.
pub proof fn law_other_devices_keep_their_order(ids: Seq<Seq<char>>, own_id: Seq<char>, id: Seq<char>)
    requires
        ids.no_duplicates(),
    ensures
        own_first(ids, own_id).len() == ids.len(),
        ids.contains(own_id) ==> own_first(ids, own_id)[0] == own_id,
        !ids.contains(own_id) ==> own_first(ids, own_id) == ids,
        own_first(ids, own_id).contains(id) <==> ids.contains(id),
        forall|a: int, b: int|
            0 <= a < b < ids.len() && ids[a] != own_id && ids[b] != own_id ==> own_first(
                ids,
                own_id,
            ).index_of(ids[a]) < own_first(ids, own_id).index_of(ids[b]),
{
    if ids.contains(own_id) {
        let at = ids.index_of(own_id);
        let rest = ids.remove(at);
        let all = own_first(ids, own_id);
        assert(all == seq![own_id] + rest);
        assert forall|k: int| 0 <= k < ids.len() && k != at implies all[place_after(k, at)]
            == #[trigger] ids[k] by {
            if k < at {
                assert(rest[k] == ids[k]);
                assert(all[k + 1] == rest[k]);
            } else {
                assert(rest[k - 1] == ids[k]);
                assert(all[k] == rest[k - 1]);
            }
        }
        if ids.contains(id) && id != own_id {
            let k = choose|k: int| 0 <= k < ids.len() && ids[k] == id;
            assert(all[place_after(k, at)] == id);
        }
        if id == own_id {
            assert(all[0] == own_id);
        }
        if all.contains(id) && id != own_id {
            let k = choose|k: int| 0 <= k < all.len() && all[k] == id;
            if k <= at {
                assert(ids[k - 1] == all[k]);
            } else {
                assert(ids[k] == all[k]);
            }
        }
        assert forall|a: int, b: int|
            0 <= a < b < ids.len() && ids[a] != own_id && ids[b] != own_id implies all.index_of(
            ids[a],
        ) < all.index_of(ids[b]) by {
            assert(all[place_after(a, at)] == ids[a]);
            assert(all[place_after(b, at)] == ids[b]);
            lemma_only_place(ids, own_id, a, at);
            lemma_only_place(ids, own_id, b, at);
        }
    } else {
        assert forall|a: int, b: int|
            0 <= a < b < ids.len() && ids[a] != own_id && ids[b] != own_id implies ids.index_of(
            ids[a],
        ) < ids.index_of(ids[b]) by {
            let x = ids.index_of(ids[a]);
            let y = ids.index_of(ids[b]);
            assert(ids.contains(ids[a]) && ids.contains(ids[b]));
            assert(ids[x] == ids[a] && ids[y] == ids[b]);
            assert(x == a && y == b);
        }
    }
}

/// The place of what stood at `k`, once what stood at `at` is put first.
spec fn place_after(k: int, at: int) -> int {
    if k < at {
        k + 1
    } else {
        k
    }
}

proof fn lemma_only_place(ids: Seq<Seq<char>>, own_id: Seq<char>, k: int, at: int)
    requires
        ids.no_duplicates(),
        0 <= k < ids.len(),
        0 <= at < ids.len(),
        ids[at] == own_id,
        at == ids.index_of(own_id),
        k != at,
    ensures
        own_first(ids, own_id).index_of(ids[k]) == place_after(k, at),
{
    let all = own_first(ids, own_id);
    let rest = ids.remove(at);
    assert(ids.contains(own_id));
    assert(all == seq![own_id] + rest);
    let p = place_after(k, at);
    assert(all[p] == ids[k]);
    let q = all.index_of(ids[k]);
    assert(all.contains(ids[k]));
    assert(all[q] == ids[k]);
    if q == 0 {
        assert(ids[k] == ids[at]);
    } else if q <= at {
        assert(ids[q - 1] == all[q]);
        assert(q - 1 == k);
    } else {
        assert(ids[q] == all[q]);
        assert(q == k);
    }
}

/// The entries of a directory are the rows directly below it that are not
/// deleted.
pub proof fn law_entries_of_a_directory_are_below_it(
    rows: Seq<LibIndexRow>,
    parent_id: Seq<char>,
    n: int,
    i: int,
)
    requires
        0 <= n <= rows.len(),
    ensures
        rows_below(rows, parent_id, n).contains(i) <==> 0 <= i < n && !rows[i].deleted && (
        rows[i].parent_id matches Some(p) && p@ == parent_id),
        forall|a: int, b: int|
            0 <= a < b < rows_below(rows, parent_id, n).len() ==> rows_below(rows, parent_id, n)[a]
                < rows_below(rows, parent_id, n)[b],
        rows_below(rows, parent_id, n).len() <= n,
        forall|a: int|
            0 <= a < rows_below(rows, parent_id, n).len() ==> 0 <= #[trigger] rows_below(
                rows,
                parent_id,
                n,
            )[a] < n,
    decreases n,
{
    if n > 0 {
        law_entries_of_a_directory_are_below_it(rows, parent_id, n - 1, i);
        let before = rows_below(rows, parent_id, n - 1);
        let now = rows_below(rows, parent_id, n);
        if is_below(rows[n - 1], parent_id) {
            assert(now == before.push(n - 1));
            if before.contains(i) {
                let k = choose|k: int| 0 <= k < before.len() && before[k] == i;
                assert(now[k] == i);
            }
            assert(now[before.len() as int] == n - 1);
            if now.contains(i) && i != n - 1 {
                let k = choose|k: int| 0 <= k < now.len() && now[k] == i;
                assert(before[k] == i);
            }
        }
    }
}

/// Directories come before files, and entries of one kind in the order of
/// their names.
pub proof fn law_directories_come_before_files(a: LibEntryDto, b: LibEntryDto)
    ensures
        a.entry_type@ != "file"@ && b.entry_type@ == "file"@ ==> key_le(
            browse_key(a),
            browse_key(b),
        ) && !key_le(browse_key(b), browse_key(a)),
        (a.entry_type@ == "file"@) == (b.entry_type@ == "file"@) ==> (key_le(
            browse_key(a),
            browse_key(b),
        ) <==> text_le(a.name@, b.name@)),
{
    let x = browse_key(a);
    let y = browse_key(b);
    assert(x.drop_first() =~= plain_key(a.name@));
    assert(y.drop_first() =~= plain_key(b.name@));
}

/// The entries of a directory are shown in that order: none is before one
/// that comes before it.
pub proof fn law_entries_are_shown_in_order(
    rows: Seq<LibIndexRow>,
    parent_id: Seq<char>,
    a: int,
    b: int,
)
    requires
        rows.len() <= usize::MAX,
        0 <= a < b < rows_below(rows, parent_id, rows.len() as int).len(),
    ensures
        ({
            let at = rows_below(rows, parent_id, rows.len() as int);
            let order = the_order(browse_keys(rows, at));
            let x = rows[at[order[a] as int]].entry;
            let y = rows[at[order[b] as int]].entry;
            &&& order[a] != order[b]
            &&& key_le(browse_key(x), browse_key(y))
            &&& !(x.entry_type@ == "file"@ && y.entry_type@ != "file"@)
            &&& (x.entry_type@ == "file"@) == (y.entry_type@ == "file"@) ==> text_le(
                x.name@,
                y.name@,
            )
        }),
{
    law_entries_of_a_directory_are_below_it(rows, parent_id, rows.len() as int, 0);
    let at = rows_below(rows, parent_id, rows.len() as int);
    let keys = browse_keys(rows, at);
    law_stable_order_sorts_and_keeps(keys, a, b);
    let order = the_order(keys);
    let x = rows[at[order[a] as int]].entry;
    let y = rows[at[order[b] as int]].entry;
    law_directories_come_before_files(x, y);
    law_directories_come_before_files(y, x);
}

/// The key of a book is made of the type and the id of its source and of the
/// path under which the book is known.
pub proof fn law_books_have_their_keys(kind: Seq<char>, id: Seq<char>, path: Seq<char>)
    ensures
        book_key(kind, id, path) == kind + "|"@ + id + "|"@ + library_path(path),
{
}

/// A node of the tree shows its device and the sources of its rows, in their
/// order.
pub proof fn law_nodes_show_their_sources(
    node: SourceTreeNodeDto,
    device: Seq<char>,
    rows: Seq<SourceRow>,
    n: int,
    own_id: Seq<char>,
    devices: Seq<DeviceEntry>,
    counts: Seq<(String, i64)>,
    k: int,
)
    requires
        shows_device(node, device, rows, n, own_id, devices, counts),
    ensures
        node.device_id@ == device,
        node.device_name@ == shown_device_name(devices, device, own_id),
        node.sources@.len() == device_rows(rows, n, own_id, device).len(),
        0 <= k < node.sources@.len() ==> shows_source(
            node.sources@[k],
            rows[device_rows(rows, n, own_id, device)[k]],
            own_id,
            devices,
            counts,
        ),
{
}

/// What is shown of a source and of a found book are the texts that are
/// stored of them, each under its name.
pub proof fn law_sources_and_books_show_what_is_stored(
    dto: SourceAvailabilityDto,
    row: SourceRow,
    book: BookSearchDto,
    found: BookRow,
    own_id: Seq<char>,
    devices: Seq<DeviceEntry>,
    counts: Seq<(String, i64)>,
)
    requires
        shows_source(dto, row, own_id, devices, counts),
        shows_book(book, found, own_id, devices),
    ensures
        dto.source_id@ == row.id@ && dto.fingerprint@ == row.fingerprint@ && dto.name@ == row.name@
            && dto.source_type@ == row.source_type@ && dto.path@ == row.path@,
        dto.device_name@ == shown_device_name(devices, dto.device_id@, own_id),
        dto.offline_index_count == index_count(counts, row.id@),
        book.book_id@ == found.book_id@ && book.source_id@ == found.source_id@ && book.source_name@
            == found.source_name@ && book.source_type@ == found.source_type@ && book.path@
            == found.path@ && book.title@ == found.title@,
        book.last_read_at == found.last_read_at,
        found.tags matches Some(tags) ==> book.tags@ == tags@,
        found.tags is None ==> book.tags@.len() == 0,
        book.device_name@ == shown_device_name(devices, book.device_id@, own_id),
        found.remote_only == 0 ==> book.device_id@ == own_id,
{
}

} // verus!
