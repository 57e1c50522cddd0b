//! Moving the root of the data to another place: what is moved, how the copy
//! is verified, and what is undone when it fails.

use vstd::prelude::*;
use vstd::string::*;

use crate::json::{json_of_words, word_from_json, word_in_json, words_to_json};
use crate::text::{cat3, same};
use crate::tree::{
    dir_size, lemma_lens_sum_to_size, lemma_sum_of_both, lemma_sum_of_reordered, node_lens,
    node_size, own_size, size_by_itself, sum_of, Node, PathParts,
};

verus! {

/// The file that marks a migration under way.
pub const MIGRATION_MARKER: &'static str = "migration.partial";

/// How often the copy of an item is verified before it counts as failed.
pub const VERIFY_ATTEMPTS: u32 = 5;

// ------------------------------------------------------------------
// What is moved
// ------------------------------------------------------------------

/// Why a migration is refused at once, if it is.
pub open spec fn migration_refusal(from: PathParts, to: PathParts) -> Option<Seq<char>> {
    if from.within(to) || to.within(from) {
        Some("目标目录不能与源目录相同或互为子目录"@)
    } else if from.is_disk_root() || to.is_disk_root() {
        Some("缓存目录不能是磁盘根目录"@)
    } else {
        None
    }
}

/// Checks that neither root lies within the other and that neither is the
/// root of a disk.
pub fn check_migration(from: &PathParts, to: &PathParts) -> (r: Result<(), String>)
    ensures
        match r {
            Ok(_) => migration_refusal(*from, *to) is None,
            Err(text) => migration_refusal(*from, *to) == Some(text@),
        },
{
    if from.starts_with(to) || to.starts_with(from) {
        return Err("目标目录不能与源目录相同或互为子目录".to_owned());
    }
    if from.names.len() == 0 || to.names.len() == 0 {
        return Err("缓存目录不能是磁盘根目录".to_owned());
    }
    Ok(())
}

/// Whether an entry of the root is moved: every file but the marker, and the
/// directory of the caches; nothing that is or holds the support directory.
pub open spec fn is_moved(entry: (String, Node), from: PathParts, support: PathParts) -> bool {
    &&& entry.0@ != MIGRATION_MARKER@
    &&& !support.covers_child(from, entry.0@)
    &&& entry.1 is File || (entry.1 is Dir && entry.0@ == "cache"@)
}

/// The positions, among the first `n` entries, of those that are moved.
pub open spec fn moved_entries(
    entries: Seq<(String, Node)>,
    n: int,
    from: PathParts,
    support: PathParts,
) -> Seq<int>
    decreases n,
{
    if n <= 0 {
        Seq::<int>::empty()
    } else if is_moved(entries[n - 1], from, support) {
        moved_entries(entries, n - 1, from, support).push(n - 1)
    } else {
        moved_entries(entries, n - 1, from, support)
    }
}

/// The bytes of the moved entries among the first `n`.
pub open spec fn moved_size(
    entries: Seq<(String, Node)>,
    n: int,
    from: PathParts,
    support: PathParts,
) -> nat
    decreases n,
{
    if n <= 0 {
        0
    } else if is_moved(entries[n - 1], from, support) {
        moved_size(entries, n - 1, from, support) + node_size(entries[n - 1].1)
    } else {
        moved_size(entries, n - 1, from, support)
    }
}

proof fn lemma_moved_size_grows(
    entries: Seq<(String, Node)>,
    m: int,
    n: int,
    from: PathParts,
    support: PathParts,
)
    requires
        0 <= m <= n,
    ensures
        moved_size(entries, m, from, support) <= moved_size(entries, n, from, support),
    decreases n - m,
{
    if m < n {
        lemma_moved_size_grows(entries, m, n - 1, from, support);
    }
}

/// An item that is moved.
pub struct MigrationItem {
    pub name: String,
    pub is_dir: bool,
    pub size: u64,
}

/// A migration under way.
pub struct Migration {
    pub items: Vec<MigrationItem>,
    /// The bytes of all items.
    pub total: u64,
    /// The bytes that have been copied.
    pub copied: u64,
    /// The number of items that have been copied.
    pub done: usize,
    /// The number of items whose copies have been found good.
    pub verified: usize,
    /// How often the copy of the item after those has been looked at in vain.
    pub attempt: u32,
}

/// Whether the items are those of the entries at the positions.
pub open spec fn items_of(
    items: Seq<MigrationItem>,
    entries: Seq<(String, Node)>,
    positions: Seq<int>,
) -> bool {
    &&& items.len() == positions.len()
    &&& forall|k: int|
        0 <= k < positions.len() ==> {
            let entry = entries[#[trigger] positions[k]];
            &&& items[k].name == entry.0
            &&& items[k].is_dir == entry.1 is Dir
            &&& items[k].size == node_size(entry.1)
        }
}

/// What has happened in a migration.
pub enum MigrationEvent {
    /// The marker has been written.
    Marked,
    /// The item under way has been copied whole.
    ItemCopied,
    /// The copy of an item has been looked at: files of a directory or bytes
    /// of a file, nothing where they could not be read.
    Looked { original: Option<u64>, copy: Option<u64> },
    /// Copying has failed.
    Failed(String),
}

/// What is done next in a migration.
pub enum MigrationAction {
    /// Copy the item at this position.
    Copy { item: usize },
    /// Wait so many milliseconds, and look at the copy of the item at this
    /// position.
    Look { item: usize, ms: u64 },
    /// Remove the marker: all has been copied.
    Finish { copied: u64 },
    /// Remove these copies, directories where so marked, then the marker: the
    /// migration has failed. The originals stay as they are.
    Undo { remove: Vec<(String, bool)>, text: String },
}

/// Whether a copy is good: of a directory as many files, of a file as many
/// bytes, and both could be read.
pub open spec fn is_verified(original: Option<u64>, copy: Option<u64>) -> bool {
    original is Some && original == copy
}

/// Why a migration fails on a copy that stays bad.
pub open spec fn verify_failure(item: MigrationItem) -> Seq<char> {
    "迁移校验失败："@ + item.name@ + (if item.is_dir {
        " 文件数量不一致"@
    } else {
        " 大小不一致"@
    })
}

/// Whether these are the names of the first items, with whether they are
/// directories.
pub open spec fn names_first(
    remove: Seq<(String, bool)>,
    items: Seq<MigrationItem>,
    n: int,
) -> bool {
    &&& remove.len() == n
    &&& forall|k: int|
        0 <= k < n ==> (#[trigger] remove[k]).0 == items[k].name && remove[k].1 == items[k].is_dir
}

impl Migration {
    /// Items are copied, then looked at, in their order, and no copy more
    /// often than is allowed.
    pub open spec fn wf(&self) -> bool {
        &&& self.verified <= self.done <= self.items@.len()
        &&& self.done < self.items@.len() ==> self.verified == 0 && self.attempt == 0
        &&& self.attempt < VERIFY_ATTEMPTS
    }

    /// The number of items of which something may have been copied: those
    /// copied whole and the one under way.
    pub open spec fn touched(&self) -> int {
        if self.done < self.items@.len() {
            self.done + 1
        } else {
            self.done as int
        }
    }

    /// The bytes that have been copied, and those of all items.
    pub fn migration_progress(&self) -> (r: (u64, u64))
        ensures
            r == (self.copied, self.total),
    {
        (self.copied, self.total)
    }

    /// Takes note of a copied file.
    pub fn file_copied(&mut self, len: u64)
        requires
            old(self).copied + len <= u64::MAX,
        ensures
            *final(self) == old(self).with_copied(len),
    {
        self.copied = self.copied + len;
    }

    /// The migration after one more copied file.
    pub open spec fn with_copied(self, len: u64) -> Migration {
        Migration { copied: (self.copied + len) as u64, ..self }
    }

    /// The migration after files of these lengths have been copied.
    pub open spec fn with_all_copied(self, lens: Seq<u64>) -> Migration
        decreases lens.len(),
    {
        if lens.len() == 0 {
            self
        } else {
            self.with_all_copied(lens.drop_last()).with_copied(lens.last())
        }
    }

    /// The copies that are removed again when the migration fails: those of
    /// all items that had been copied whole, and what there is of the one
    /// under way. The originals stay.
    pub fn rollback(&self) -> (r: Vec<(String, bool)>)
        requires
            self.wf(),
        ensures
            names_first(r@, self.items@, self.touched()),
    {
        let count: usize = self.items.len();
        let touched: usize = if self.done < count {
            self.done + 1
        } else {
            self.done
        };
        let mut out: Vec<(String, bool)> = Vec::new();
        let mut k: usize = 0;
        while k < touched
            invariant
                k <= touched <= self.items@.len(),
                names_first(out@, self.items@, k as int),
            decreases touched - k,
        {
            out.push((self.items[k].name.clone(), self.items[k].is_dir));
            k = k + 1;
        }
        out
    }

    /// Whether `action` is what comes next: the first item that has not been
    /// copied is copied; once all have been, the first whose copy has not
    /// been found good is looked at, later each time; then the end is
    /// reached.
    pub open spec fn goes_on(&self, action: MigrationAction) -> bool {
        if self.done < self.items@.len() {
            action matches MigrationAction::Copy { item } && item == self.done
        } else if self.verified < self.items@.len() {
            action matches MigrationAction::Look { item, ms } && item == self.verified && ms == 50
                * self.attempt
        } else {
            action matches MigrationAction::Finish { copied } && copied == self.copied
        }
    }

    /// Whether `action` takes back all that has been copied.
    pub open spec fn gives_up(&self, action: MigrationAction, why: Seq<char>) -> bool {
        action matches MigrationAction::Undo { remove, text } && text@ == why && names_first(
            remove@,
            self.items@,
            self.touched(),
        )
    }

    /// Whether the event can happen now.
    pub open spec fn awaits(&self, event: MigrationEvent) -> bool {
        match event {
            MigrationEvent::Marked => self.done == 0 && self.verified == 0 && self.attempt == 0,
            MigrationEvent::ItemCopied => self.done < self.items@.len(),
            MigrationEvent::Looked { .. } => self.done == self.items@.len() && self.verified
                < self.items@.len(),
            MigrationEvent::Failed(_) => true,
        }
    }

    fn next_action(&self) -> (r: MigrationAction)
        requires
            self.wf(),
        ensures
            self.goes_on(r),
    {
        if self.done < self.items.len() {
            MigrationAction::Copy { item: self.done }
        } else if self.verified < self.items.len() {
            MigrationAction::Look { item: self.verified, ms: 50 * self.attempt as u64 }
        } else {
            MigrationAction::Finish { copied: self.copied }
        }
    }

    /// What follows an event: all items are copied, then all copies are
    /// looked at, and a failure takes back what has been copied.
    pub fn step(&mut self, event: MigrationEvent) -> (r: MigrationAction)
        requires
            old(self).wf(),
            old(self).awaits(event),
        ensures
            final(self).wf(),
            match event {
                MigrationEvent::Marked => *final(self) == *old(self) && final(self).goes_on(r),
                MigrationEvent::ItemCopied => *final(self) == (Migration {
                    done: (old(self).done + 1) as usize,
                    ..*old(self)
                }) && final(self).goes_on(r),
                MigrationEvent::Looked { original, copy } => if is_verified(original, copy) {
                    *final(self) == (Migration {
                        verified: (old(self).verified + 1) as usize,
                        attempt: 0,
                        ..*old(self)
                    }) && final(self).goes_on(r)
                } else if old(self).attempt + 1 < VERIFY_ATTEMPTS {
                    *final(self) == (Migration {
                        attempt: (old(self).attempt + 1) as u32,
                        ..*old(self)
                    }) && final(self).goes_on(r)
                } else {
                    *final(self) == *old(self) && final(self).gives_up(
                        r,
                        verify_failure(old(self).items@[old(self).verified as int]),
                    )
                },
                MigrationEvent::Failed(text) => *final(self) == *old(self) && final(self).gives_up(
                    r,
                    text@,
                ),
            },
    {
        match event {
            MigrationEvent::Marked => self.next_action(),
            MigrationEvent::ItemCopied => {
                let count: usize = self.items.len();
                assert(self.done < count);
                self.done = self.done + 1;
                self.next_action()
            },
            MigrationEvent::Looked { original, copy } => {
                let good = match (original, copy) {
                    (Some(a), Some(b)) => a == b,
                    _ => false,
                };
                if good {
                    let count: usize = self.items.len();
                    assert(self.verified < count);
                    self.verified = self.verified + 1;
                    self.attempt = 0;
                    return self.next_action();
                }
                if self.attempt + 1 < VERIFY_ATTEMPTS {
                    self.attempt = self.attempt + 1;
                    return self.next_action();
                }
                let item = &self.items[self.verified];
                let text = if item.is_dir {
                    cat3("迁移校验失败：", item.name.as_str(), " 文件数量不一致")
                } else {
                    cat3("迁移校验失败：", item.name.as_str(), " 大小不一致")
                };
                MigrationAction::Undo { remove: self.rollback(), text }
            },
            MigrationEvent::Failed(text) => MigrationAction::Undo { remove: self.rollback(), text },
        }
    }
}

/// No copy is looked at before all items have been copied, and a migration
/// ends well only once every copy has been found good.
pub proof fn law_all_is_copied_then_verified(migration: Migration, action: MigrationAction)
    requires
        migration.wf(),
        migration.goes_on(action),
    ensures
        action is Look ==> migration.done == migration.items@.len(),
        action is Finish ==> migration.verified == migration.items@.len(),
        !(action is Undo),
{
}

/// What is taken back covers every item that the migration was ever told to
/// copy.
pub proof fn law_whatever_was_begun_is_taken_back(
    migration: Migration,
    action: MigrationAction,
    undo: MigrationAction,
    why: Seq<char>,
    item: usize,
)
    requires
        migration.wf(),
        migration.goes_on(action),
        item < migration.done || action == (MigrationAction::Copy { item }),
        migration.gives_up(undo, why),
    ensures
        undo matches MigrationAction::Undo { remove, text } && exists|k: int|
            0 <= k < remove@.len() && (#[trigger] remove@[k]).0
                == migration.items@[item as int].name,
{
    let taken = undo->remove@;
    assert(taken[item as int].0 == migration.items@[item as int].name);
}

/// Begins a migration: it is checked, and what is moved is listed.
pub fn migrate_cache_root(
    from: &PathParts,
    to: &PathParts,
    support: &PathParts,
    entries: &Vec<(String, Node)>,
) -> (r: Result<Migration, String>)
    requires
        moved_size(entries@, entries@.len() as int, *from, *support) <= u64::MAX,
    ensures
        match r {
            Ok(m) => {
                &&& migration_refusal(*from, *to) is None
                &&& items_of(
                    m.items@,
                    entries@,
                    moved_entries(entries@, entries@.len() as int, *from, *support),
                )
                &&& m.total == moved_size(entries@, entries@.len() as int, *from, *support)
                &&& m.copied == 0 && m.done == 0 && m.verified == 0 && m.attempt == 0
                &&& m.wf()
            },
            Err(text) => migration_refusal(*from, *to) == Some(text@),
        },
{
    match check_migration(from, to) {
        Ok(_) => {},
        Err(text) => return Err(text),
    }
    let mut items: Vec<MigrationItem> = Vec::new();
    let mut total: u64 = 0;
    let mut i: usize = 0;
    while i < entries.len()
        invariant
            i <= entries.len(),
            moved_size(entries@, entries@.len() as int, *from, *support) <= u64::MAX,
            total == moved_size(entries@, i as int, *from, *support),
            items_of(items@, entries@, moved_entries(entries@, i as int, *from, *support)),
        decreases entries.len() - i,
    {
        proof {
            lemma_moved_size_grows(entries@, i + 1, entries@.len() as int, *from, *support);
        }
        let name = entries[i].0.as_str();
        let is_dir = match &entries[i].1 {
            Node::Dir { .. } => true,
            _ => false,
        };
        let is_file = match &entries[i].1 {
            Node::File { .. } => true,
            _ => false,
        };
        if !same(name, MIGRATION_MARKER) && !support.in_child(from, name) && (is_file || (is_dir
            && same(name, "cache"))) {
            let size: u64 = dir_size(&entries[i].1);
            total = total + size;
            items.push(MigrationItem { name: entries[i].0.clone(), is_dir, size });
        }
        i = i + 1;
    }
    Ok(Migration { items, total, copied: 0, done: 0, verified: 0, attempt: 0 })
}

/// Neither the marker nor anything that is or holds the support directory is
/// moved.
pub proof fn law_marker_and_support_stay(
    entries: Seq<(String, Node)>,
    n: int,
    from: PathParts,
    support: PathParts,
    k: int,
)
    requires
        0 <= n <= entries.len(),
        0 <= k < moved_entries(entries, n, from, support).len(),
    ensures
        ({
            let i = moved_entries(entries, n, from, support)[k];
            &&& 0 <= i < n
            &&& entries[i].0@ != MIGRATION_MARKER@
            &&& !support.covers_child(from, entries[i].0@)
        }),
    decreases n,
{
    if n > 0 {
        let was = moved_entries(entries, n - 1, from, support);
        if k < was.len() {
            law_marker_and_support_stay(entries, n - 1, from, support, k);
        }
    }
}

// ------------------------------------------------------------------
// How far it is
// ------------------------------------------------------------------

/// The lengths of all files in the moved entries among the first `n`.
pub open spec fn moved_lens(
    entries: Seq<(String, Node)>,
    n: int,
    from: PathParts,
    support: PathParts,
) -> Seq<u64>
    decreases n,
{
    if n <= 0 {
        Seq::<u64>::empty()
    } else if is_moved(entries[n - 1], from, support) {
        moved_lens(entries, n - 1, from, support) + node_lens(entries[n - 1].1)
    } else {
        moved_lens(entries, n - 1, from, support)
    }
}

proof fn lemma_moved_lens_sum(
    entries: Seq<(String, Node)>,
    n: int,
    from: PathParts,
    support: PathParts,
)
    ensures
        sum_of(moved_lens(entries, n, from, support)) == moved_size(entries, n, from, support),
    decreases n,
{
    if n > 0 {
        lemma_moved_lens_sum(entries, n - 1, from, support);
        if is_moved(entries[n - 1], from, support) {
            lemma_lens_sum_to_size(entries[n - 1].1);
            lemma_sum_of_both(
                moved_lens(entries, n - 1, from, support),
                node_lens(entries[n - 1].1),
            );
        }
    }
}

proof fn lemma_all_copied(migration: Migration, lens: Seq<u64>)
    requires
        migration.copied + sum_of(lens) <= u64::MAX,
    ensures
        migration.with_all_copied(lens) == (Migration {
            copied: (migration.copied + sum_of(lens)) as u64,
            ..migration
        }),
    decreases lens.len(),
{
    if lens.len() > 0 {
        lemma_all_copied(migration, lens.drop_last());
    }
}

/// Once every file of the moved entries has been reported as copied, in
/// whatever order, all bytes have been copied.
pub proof fn law_all_files_are_all_bytes(
    migration: Migration,
    entries: Seq<(String, Node)>,
    from: PathParts,
    support: PathParts,
    lens: Seq<u64>,
)
    requires
        migration.copied == 0,
        migration.total == moved_size(entries, entries.len() as int, from, support),
        lens.to_multiset() == moved_lens(
            entries,
            entries.len() as int,
            from,
            support,
        ).to_multiset(),
    ensures
        migration.with_all_copied(lens) == (Migration { copied: migration.total, ..migration }),
{
    let all = moved_lens(entries, entries.len() as int, from, support);
    lemma_moved_lens_sum(entries, entries.len() as int, from, support);
    lemma_sum_of_reordered(lens, all);
    lemma_all_copied(migration, lens);
}

// ------------------------------------------------------------------
// The marker
// ------------------------------------------------------------------

/// Whether a marker names these two roots.
pub open spec fn marks_roots(marker: Seq<char>, from: Seq<char>, to: Seq<char>) -> bool {
    word_in_json(marker, "from"@) == Some(from) && word_in_json(marker, "to"@) == Some(to)
}

/// The text of the marker of a migration. It names both roots.
pub fn migration_marker(from: &str, to: &str) -> (r: String)
    ensures
        r@ == json_of_words("from"@, from@, "to"@, to@),
        marks_roots(r@, from@, to@),
{
    proof {
        reveal_strlit("from");
        reveal_strlit("to");
        assert("from"@.len() != "to"@.len());
    }
    match words_to_json("from", from, "to", to) {
        Some(text) => text,
        None => String::new(),
    }
}

/// The roots that a marker names by its two words; nothing where one of them
/// is missing.
pub fn marked_roots(from: Option<String>, to: Option<String>) -> (r: Option<(String, String)>)
    ensures
        match r {
            Some((f, t)) => from == Some(f) && to == Some(t),
            None => from is None || to is None,
        },
{
    match (from, to) {
        (Some(f), Some(t)) => Some((f, t)),
        _ => None,
    }
}

/// A migration that was interrupted: its marker names both roots. There is
/// none where the marker is missing or does not name them.
pub fn pending_migration(marker: &Option<String>) -> (r: Option<(String, String)>)
    ensures
        match r {
            Some((from, to)) => marker matches Some(text) && marks_roots(text@, from@, to@),
            None => marker matches Some(text) ==> word_in_json(text@, "from"@) is None
                || word_in_json(text@, "to"@) is None,
        },
{
    match marker {
        Some(text) => {
            let from = word_from_json(text.as_str(), "from");
            let to = word_from_json(text.as_str(), "to");
            marked_roots(from, to)
        },
        None => None,
    }
}

// ------------------------------------------------------------------
// Afterwards
// ------------------------------------------------------------------

/// What is removed of a root that has been moved.
pub struct MigratedRemoval {
    pub database: bool,
    pub cache: bool,
    pub freed: u64,
}

/// The bytes of what lies under a name, 0 where nothing does.
pub open spec fn found_size(found: Option<Node>) -> nat {
    match found {
        Some(node) => own_size(node),
        None => 0,
    }
}

/// Removes the database and the caches of a root that has been moved.
/// `database` and `cache` are what the paths `database.db` and `cache` in the
/// root lead to.
pub fn delete_migrated_items(
    root: &PathParts,
    database: &Option<Node>,
    cache: &Option<Node>,
) -> (r: Result<MigratedRemoval, String>)
    requires
        found_size(*database) + found_size(*cache) <= u64::MAX,
    ensures
        match r {
            Ok(removal) => {
                &&& !root.is_disk_root()
                &&& removal.database == database is Some
                &&& removal.cache == cache is Some
                &&& removal.freed == found_size(*database) + found_size(*cache)
            },
            Err(text) => root.is_disk_root() && text@ == "缓存目录不能是磁盘根目录"@,
        },
{
    if root.names.len() == 0 {
        return Err("缓存目录不能是磁盘根目录".to_owned());
    }
    let database_size: u64 = match database {
        Some(node) => size_by_itself(node),
        None => 0,
    };
    let cache_size: u64 = match cache {
        Some(node) => size_by_itself(node),
        None => 0,
    };
    Ok(
        MigratedRemoval {
            database: database.is_some(),
            cache: cache.is_some(),
            freed: database_size + cache_size,
        },
    )
}

// ------------------------------------------------------------------
// What a migration promises
// ------------------------------------------------------------------

/// A migration is refused where one root is the other or lies within it, for
/// that reason first, and where one of them is a whole disk; else it is
/// begun.
pub proof fn law_roots_must_lie_apart(from: PathParts, to: PathParts)
    ensures
        migration_refusal(from, to) is None <==> !from.within(to) && !to.within(from)
            && from.names@.len() > 0 && to.names@.len() > 0,
        migration_refusal(from, to) == Some("目标目录不能与源目录相同或互为子目录"@)
            <==> from.within(to) || to.within(from),
        migration_refusal(from, to) == Some("缓存目录不能是磁盘根目录"@) <==> !from.within(to)
            && !to.within(from) && (from.names@.len() == 0 || to.names@.len() == 0),
        migration_refusal(from, from) is Some,
        migration_refusal(from, to) is Some <==> migration_refusal(to, from) is Some,
{
    reveal_strlit("目标目录不能与源目录相同或互为子目录");
    reveal_strlit("缓存目录不能是磁盘根目录");
    assert("目标目录不能与源目录相同或互为子目录"@[0] == '目');
    assert("缓存目录不能是磁盘根目录"@[0] == '缓');
    let n = from.names@.len() as int;
    assert(crate::text::texts(from.names@).take(n) =~= crate::text::texts(from.names@));
}

/// What is moved of a root are its files, but for the marker, and the
/// directory of the caches; other directories, and what is or holds the
/// support directory, stay. The entries are moved in their order.
pub proof fn law_files_and_caches_are_moved(
    entries: Seq<(String, Node)>,
    n: int,
    from: PathParts,
    support: PathParts,
    i: int,
)
    requires
        0 <= n <= entries.len(),
    ensures
        moved_entries(entries, n, from, support).contains(i) <==> 0 <= i < n && entries[i].0@
            != "migration.partial"@ && !support.covers_child(from, entries[i].0@) && (
        entries[i].1 is File || (entries[i].1 is Dir && entries[i].0@ == "cache"@)),
        forall|a: int, b: int|
            0 <= a < b < moved_entries(entries, n, from, support).len() ==> moved_entries(
                entries,
                n,
                from,
                support,
            )[a] < moved_entries(entries, n, from, support)[b],
        forall|a: int|
            0 <= a < moved_entries(entries, n, from, support).len() ==> 0
                <= #[trigger] moved_entries(entries, n, from, support)[a] < n,
    decreases n,
{
    if n > 0 {
        law_files_and_caches_are_moved(entries, n - 1, from, support, i);
        let before = moved_entries(entries, n - 1, from, support);
        let now = moved_entries(entries, n, from, support);
        if is_moved(entries[n - 1], from, support) {
            assert(now == before.push(n - 1));
            if before.contains(i) {
                let k = choose|k: int| 0 <= k < before.len() && before[k] == i;
                assert(now[k] == i);
            }
            assert(now[before.len() as int] == n - 1);
            if now.contains(i) && i != n - 1 {
                let k = choose|k: int| 0 <= k < now.len() && now[k] == i;
                assert(before[k] == i);
            }
        }
    }
}

/// The bytes of a migration are those of the entries that are moved.
pub proof fn law_moved_bytes_are_those_of_moved_entries(
    entries: Seq<(String, Node)>,
    n: int,
    from: PathParts,
    support: PathParts,
)
    requires
        0 <= n <= entries.len(),
    ensures
        moved_size(entries, n, from, support) == sum_of(moved_lens(entries, n, from, support)),
        n > 0 && moved_entries(entries, n, from, support).contains(n - 1) ==> moved_size(
            entries,
            n,
            from,
            support,
        ) == moved_size(entries, n - 1, from, support) + node_size(entries[n - 1].1),
        n > 0 && !moved_entries(entries, n, from, support).contains(n - 1) ==> moved_size(
            entries,
            n,
            from,
            support,
        ) == moved_size(entries, n - 1, from, support),
    decreases n,
{
    if n > 0 {
        law_moved_bytes_are_those_of_moved_entries(entries, n - 1, from, support);
        law_files_and_caches_are_moved(entries, n, from, support, n - 1);
        if is_moved(entries[n - 1], from, support) {
            lemma_sum_of_both(
                moved_lens(entries, n - 1, from, support),
                node_lens(entries[n - 1].1),
            );
            lemma_lens_sum_to_size(entries[n - 1].1);
        }
    }
}

/// A copy is good where it could be read, the original could be read and
/// both have as much; a bad one is looked at five times in all, later each
/// time, before the migration fails on it by its name and kind.
pub proof fn law_copies_are_looked_at_five_times(
    original: Option<u64>,
    copy: Option<u64>,
    item: MigrationItem,
    migration: Migration,
)
    ensures
        is_verified(original, copy) <==> original is Some && copy is Some && original->0 == copy->0,
        VERIFY_ATTEMPTS == 5,
        item.is_dir ==> verify_failure(item) == "迁移校验失败："@ + item.name@
            + " 文件数量不一致"@,
        !item.is_dir ==> verify_failure(item) == "迁移校验失败："@ + item.name@
            + " 大小不一致"@,
        migration.wf() ==> migration.attempt <= 4,
        migration.done == migration.items@.len() && migration.verified < migration.items@.len()
            ==> forall|action: MigrationAction| #[trigger]
            migration.goes_on(action) ==> (action matches MigrationAction::Look { item, ms } && item
                == migration.verified && ms == 50 * migration.attempt),
        migration.done < migration.items@.len() ==> forall|action: MigrationAction| #[trigger]
            migration.goes_on(action) ==> (action matches MigrationAction::Copy { item } && item
                == migration.done),
{
}

/// When a migration fails everything that was copied is taken back, and what
/// there is of the item under way; nothing that was not begun is.
pub proof fn law_failed_migrations_take_back_what_was_begun(
    migration: Migration,
    action: MigrationAction,
    why: Seq<char>,
    k: int,
)
    requires
        migration.wf(),
        migration.gives_up(action, why),
    ensures
        action matches MigrationAction::Undo { remove, text } && text@ == why && remove@.len() == (
        if migration.done < migration.items@.len() {
            migration.done + 1
        } else {
            migration.items@.len() as int
        }) && (0 <= k < remove@.len() ==> remove@[k].0 == migration.items@[k].name && remove@[k].1
            == migration.items@[k].is_dir),
{
}

/// What lies under a name counts with its own bytes, and nothing with none.
pub proof fn law_found_items_count_by_themselves(node: Node)
    ensures
        found_size(None) == 0,
        found_size(Some(node)) == own_size(node),
{
}

/// An item of a migration has the name, the kind and the bytes of its entry,
/// and copying a file counts its bytes and changes nothing else.
pub proof fn law_items_are_their_entries(
    items: Seq<MigrationItem>,
    entries: Seq<(String, Node)>,
    positions: Seq<int>,
    k: int,
    migration: Migration,
    len: u64,
)
    requires
        items_of(items, entries, positions),
        0 <= k < positions.len(),
        migration.copied + len <= u64::MAX,
    ensures
        items.len() == positions.len(),
        items[k].name == entries[positions[k]].0,
        items[k].is_dir <==> entries[positions[k]].1 is Dir,
        items[k].size == node_size(entries[positions[k]].1),
        migration.with_copied(len).copied == migration.copied + len,
        migration.with_copied(len).total == migration.total && migration.with_copied(len).done
            == migration.done && migration.with_copied(len).items == migration.items
            && migration.with_copied(len).verified == migration.verified
            && migration.with_copied(len).attempt == migration.attempt,
{
    let at = positions[k];
}

} // verus!
