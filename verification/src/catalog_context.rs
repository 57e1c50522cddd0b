//! The context in which a file of the catalog stands: its name, the
//! directories above it and the files beside it.
//!
//! Everything is taken from rows of the index that are already stored.

use vstd::prelude::*;
use vstd::string::*;

use crate::api::library::{book_key, book_key_of, library_path};
use crate::order::{lemma_sorted_copy, sort_texts, text_le};
use crate::text::{
    add_unique, after_last_in, all_differ, ascii_lower, clone_list, ends, ends_with,
    eq_ignore_case, law_trimming_finds_the_core, lemma_after_last_in_is_free, lemma_after_last_in_keeps,
    lemma_trimmed_is_free, lemma_trimmed_twice, list_has, listed, lowered, opt_text, same,
    same_ignoring_case, same_opt, set_of, stripped, tail_after_in, texts, trim, CharClass,
};

verus! {

/// A row of the index.
pub struct LibraryIndexRow {
    pub id: String,
    pub source_id: String,
    pub parent_id: Option<String>,
    pub name: String,
    pub path: String,
    pub entry_type: String,
    pub size: Option<i64>,
    pub modified_at: Option<i64>,
    pub cover_path: Option<String>,
    pub hash: Option<String>,
    pub updated_at: i64,
    pub deleted: bool,
}

// ------------------------------------------------------------------
// The index by id
// ------------------------------------------------------------------

/// The rows by their ids, a later row in place of an earlier one.
pub open spec fn rows_by_id(rows: Seq<LibraryIndexRow>) -> Map<Seq<char>, LibraryIndexRow>
    decreases rows.len(),
{
    if rows.len() == 0 {
        Map::<Seq<char>, LibraryIndexRow>::empty()
    } else {
        rows_by_id(rows.drop_last()).insert(rows.last().id@, rows.last())
    }
}

/// The index, one row for each id.
pub struct CatalogIndex {
    pub rows: Vec<LibraryIndexRow>,
}

impl CatalogIndex {
    /// No id occurs twice.
    pub open spec fn wf(&self) -> bool {
        forall|i: int, j: int|
            0 <= i < j < self.rows@.len() ==> #[trigger] self.rows@[i].id@
                != #[trigger] self.rows@[j].id@
    }

    /// The rows by their ids.
    pub open spec fn by_id(&self) -> Map<Seq<char>, LibraryIndexRow> {
        rows_by_id(self.rows@)
    }

    /// Collects rows; of several with one id the last counts.
    pub fn collect(input: Vec<LibraryIndexRow>) -> (r: CatalogIndex)
        ensures
            r.wf(),
            r.by_id() == rows_by_id(input@),
    {
        let mut rest = input;
        let mut rows: Vec<LibraryIndexRow> = Vec::new();
        let mut ids: Vec<String> = Vec::new();
        let ghost whole = rest@;
        // Going from the back, the first row seen of an id is its last.
        while rest.len() > 0
            invariant
                rest@ == whole.take(rest@.len() as int),
                rest@.len() <= whole.len(),
                forall|i: int, j: int|
                    0 <= i < j < rows@.len() ==> #[trigger] rows@[i].id@ != #[trigger] rows@[j].id@,
                ids@.len() == rows@.len(),
                forall|i: int| 0 <= i < rows@.len() ==> (#[trigger] ids@[i])@ == rows@[i].id@,
                rows_by_id(rest@).union_prefer_right(rows_by_id(rows@)) == rows_by_id(whole),
            decreases rest.len(),
        {
            let ghost before = rest@;
            let ghost kept = rows@;
            let row = rest.pop().unwrap();
            assert(rest@ =~= before.drop_last());
            assert(row == before.last());
            if !list_has(&ids, row.id.as_str()) {
                ids.push(row.id.clone());
                rows.push(row);
                proof {
                    assert forall|i: int| 0 <= i < kept.len() implies (#[trigger] kept[i]).id@
                        != row.id@ by {
                        assert(ids@[i]@ == kept[i].id@);
                    }
                    assert(before =~= rest@.push(row));
                    assert(rows@ =~= kept.push(row));
                    lemma_row_moves(rest@, row, kept);
                }
            } else {
                proof {
                    let k = choose|k: int| 0 <= k < ids@.len() && #[trigger] ids@[k]@ == row.id@;
                    lemma_rows_by_id_has(kept, k);
                    assert(kept[k].id@ == row.id@);
                    assert(rows_by_id(before) == rows_by_id(rest@).insert(row.id@, row));
                    assert(rows_by_id(before).union_prefer_right(rows_by_id(kept)) =~= rows_by_id(
                        rest@,
                    ).union_prefer_right(rows_by_id(kept)));
                }
            }
        }
        proof {
            assert(rest@ =~= Seq::<LibraryIndexRow>::empty());
            assert(rows_by_id(rest@).union_prefer_right(rows_by_id(rows@)) =~= rows_by_id(rows@));
        }
        CatalogIndex { rows }
    }

    /// Where the row with this id is.
    pub fn find(&self, id: &str) -> (r: Option<usize>)
        requires
            self.wf(),
        ensures
            match r {
                Some(i) => i < self.rows@.len() && self.rows@[i as int].id@ == id@
                    && self.by_id().dom().contains(id@) && self.by_id()[id@]
                    == self.rows@[i as int],
                None => !self.by_id().dom().contains(id@),
            },
    {
        let mut i: usize = 0;
        while i < self.rows.len()
            invariant
                self.wf(),
                i <= self.rows.len(),
                forall|j: int| 0 <= j < i ==> (#[trigger] self.rows@[j]).id@ != id@,
            decreases self.rows.len() - i,
        {
            if same(self.rows[i].id.as_str(), id) {
                proof {
                    lemma_rows_by_id_at(self.rows@, i as int);
                }
                return Some(i);
            }
            i = i + 1;
        }
        proof {
            lemma_rows_by_id_without(self.rows@, id@);
        }
        None
    }
}

proof fn lemma_rows_by_id_has(rows: Seq<LibraryIndexRow>, k: int)
    requires
        0 <= k < rows.len(),
    ensures
        rows_by_id(rows).dom().contains(rows[k].id@),
    decreases rows.len(),
{
    if k < rows.len() - 1 {
        lemma_rows_by_id_has(rows.drop_last(), k);
        assert(rows.drop_last()[k] == rows[k]);
    }
}

proof fn lemma_rows_by_id_at(rows: Seq<LibraryIndexRow>, k: int)
    requires
        0 <= k < rows.len(),
        forall|i: int, j: int|
            0 <= i < j < rows.len() ==> #[trigger] rows[i].id@ != #[trigger] rows[j].id@,
    ensures
        rows_by_id(rows).dom().contains(rows[k].id@),
        rows_by_id(rows)[rows[k].id@] == rows[k],
    decreases rows.len(),
{
    if k < rows.len() - 1 {
        let rest = rows.drop_last();
        assert forall|i: int, j: int| 0 <= i < j < rest.len() implies #[trigger] rest[i].id@
            != #[trigger] rest[j].id@ by {
            assert(rows[i].id@ != rows[j].id@);
        }
        lemma_rows_by_id_at(rest, k);
        assert(rest[k] == rows[k]);
        assert(rows[k].id@ != rows[rows.len() - 1].id@);
    }
}

proof fn lemma_rows_by_id_without(rows: Seq<LibraryIndexRow>, id: Seq<char>)
    requires
        forall|j: int| 0 <= j < rows.len() ==> (#[trigger] rows[j]).id@ != id,
    ensures
        !rows_by_id(rows).dom().contains(id),
    decreases rows.len(),
{
    if rows.len() > 0 {
        assert forall|j: int| 0 <= j < rows.drop_last().len() implies (
        #[trigger] rows.drop_last()[j]).id@ != id by {
            assert(rows[j].id@ != id);
        }
        lemma_rows_by_id_without(rows.drop_last(), id);
        assert(rows[rows.len() - 1].id@ != id);
    }
}

proof fn lemma_row_moves(
    rest: Seq<LibraryIndexRow>,
    row: LibraryIndexRow,
    kept: Seq<LibraryIndexRow>,
)
    requires
        forall|i: int| 0 <= i < kept.len() ==> (#[trigger] kept[i]).id@ != row.id@,
    ensures
        rows_by_id(rest.push(row)).union_prefer_right(rows_by_id(kept)) == rows_by_id(
            rest,
        ).union_prefer_right(rows_by_id(kept.push(row))),
{
    lemma_rows_by_id_without(kept, row.id@);
    assert(rest.push(row).drop_last() =~= rest);
    assert(kept.push(row).drop_last() =~= kept);
    assert(rows_by_id(rest.push(row)).union_prefer_right(rows_by_id(kept)) =~= rows_by_id(
        rest,
    ).union_prefer_right(rows_by_id(kept.push(row))));
}

// ------------------------------------------------------------------
// Names
// ------------------------------------------------------------------

/// The last segment of a text, white space around it and around the whole
/// text ignored.
pub open spec fn last_segment(text: Seq<char>) -> Seq<char> {
    stripped(after_last_in(stripped(text), CharClass::Separator))
}

/// The file name that a row stands for: the last segment of its name, else
/// of its path.
pub open spec fn base_name(name: Seq<char>, path: Seq<char>) -> Seq<char> {
    if last_segment(name).len() > 0 {
        last_segment(name)
    } else {
        last_segment(path)
    }
}

fn last_segment_of(text: &str) -> (r: String)
    ensures
        r@ == last_segment(text@),
{
    let bare = trim(text, CharClass::White);
    let tail = tail_after_in(bare.as_str(), CharClass::Separator);
    trim(tail.as_str(), CharClass::White)
}

/// The file name that a row stands for.
pub fn basename(name: &str, fallback_path: &str) -> (r: String)
    ensures
        r@ == base_name(name@, fallback_path@),
{
    let candidate = last_segment_of(name);
    if !candidate.as_str().is_empty() {
        return candidate;
    }
    last_segment_of(fallback_path)
}

/// The file name of a file name is the file name itself.
pub proof fn law_base_name_is_stable(name: Seq<char>, path: Seq<char>)
    ensures
        last_segment(base_name(name, path)) == base_name(name, path),
        base_name(base_name(name, path), base_name(name, path)) == base_name(name, path),
{
    lemma_last_segment_is_stable(name);
    lemma_last_segment_is_stable(path);
}

proof fn lemma_last_segment_is_stable(text: Seq<char>)
    ensures
        last_segment(last_segment(text)) == last_segment(text),
{
    let tail = after_last_in(stripped(text), CharClass::Separator);
    let s = stripped(tail);
    lemma_after_last_in_is_free(stripped(text), CharClass::Separator);
    lemma_trimmed_is_free(tail, CharClass::White, CharClass::Separator);
    lemma_trimmed_twice(tail, CharClass::White);
    lemma_after_last_in_keeps(s, CharClass::Separator);
}

/// Whether a text ends like the name of an archive, ASCII case and white
/// space around it ignored.
pub open spec fn names_archive(value: Seq<char>) -> bool {
    let t = lowered(stripped(value));
    ||| ends(t, ".cbz"@)
    ||| ends(t, ".zip"@)
    ||| ends(t, ".cbr"@)
    ||| ends(t, ".rar"@)
    ||| ends(t, ".cb7"@)
    ||| ends(t, ".7z"@)
    ||| ends(t, ".cbt"@)
    ||| ends(t, ".tar"@)
}

/// Whether a text ends like the name of an archive.
pub fn has_archive_extension(value: &str) -> (r: bool)
    ensures
        r == names_archive(value@),
{
    let bare = trim(value, CharClass::White);
    let lower = ascii_lower(bare.as_str());
    let t = lower.as_str();
    ends_with(t, ".cbz") || ends_with(t, ".zip") || ends_with(t, ".cbr") || ends_with(t, ".rar")
        || ends_with(t, ".cb7") || ends_with(t, ".7z") || ends_with(t, ".cbt") || ends_with(
        t,
        ".tar",
    )
}

/// The words for formats and kinds of collections.
pub open spec fn is_bucket_word(t: Seq<char>) -> bool {
    ||| t == "epub"@ || t == "pdf"@ || t == "cbz"@ || t == "cbr"@ || t == "zip"@ || t == "rar"@
    ||| t == "mobi"@ || t == "azw"@ || t == "azw3"@ || t == "7z"@
    ||| t == "漫画"@ || t == "日漫"@ || t == "国漫"@ || t == "韩漫"@ || t == "韓漫"@ || t == "欧美"@
    ||| t == "manga"@ || t == "comic"@ || t == "comics"@
    ||| t == "小说"@ || t == "轻小说"@ || t == "杂志"@ || t == "图集"@ || t == "画集"@
    ||| t == "分类"@ || t == "分类目录"@ || t == "書架"@ || t == "书架"@
    ||| t == "library"@ || t == "downloads"@ || t == "download"@
    ||| t == "全部"@ || t == "全部文件"@ || t == "根目录"@ || t == "root"@
    ||| t == "collection"@ || t == "collections"@
    ||| t == "合集"@ || t == "全集"@ || t == "单行本"@ || t == "连载"@ || t == "番外"@
    ||| t == "tankoubon"@ || t == "serial"@
}

/// The names of the roots of cloud providers.
pub open spec fn is_provider_root(t: Seq<char>) -> bool {
    ||| t == "115"@ || t == "115网盘"@ || t == "夸克"@ || t == "夸克网盘"@
    ||| t == "quark"@ || t == "cloud"@ || t == "云盘"@
}

/// Whether a directory only sorts books and says nothing of one: it is
/// blank, called like a format or a kind of collection, or the root of a
/// cloud provider.
pub open spec fn is_bucket(value: Seq<char>, source_type: Seq<char>) -> bool {
    let t = lowered(stripped(value));
    ||| t.len() == 0
    ||| is_bucket_word(t)
    ||| (source_type == "115"@ || source_type == "quark"@) && is_provider_root(t)
}

fn bucket_word(t: &str) -> (r: bool)
    ensures
        r == is_bucket_word(t@),
{
    same(t, "epub") || same(t, "pdf") || same(t, "cbz") || same(t, "cbr") || same(t, "zip") || same(
        t,
        "rar",
    ) || same(t, "mobi") || same(t, "azw") || same(t, "azw3") || same(t, "7z") || same(t, "漫画")
        || same(t, "日漫") || same(t, "国漫") || same(t, "韩漫") || same(t, "韓漫") || same(
        t,
        "欧美",
    ) || same(t, "manga") || same(t, "comic") || same(t, "comics") || same(t, "小说") || same(
        t,
        "轻小说",
    ) || same(t, "杂志") || same(t, "图集") || same(t, "画集") || same(t, "分类") || same(
        t,
        "分类目录",
    ) || same(t, "書架") || same(t, "书架") || same(t, "library") || same(t, "downloads") || same(
        t,
        "download",
    ) || same(t, "全部") || same(t, "全部文件") || same(t, "根目录") || same(t, "root") || same(
        t,
        "collection",
    ) || same(t, "collections") || same(t, "合集") || same(t, "全集") || same(t, "单行本") || same(
        t,
        "连载",
    ) || same(t, "番外") || same(t, "tankoubon") || same(t, "serial")
}

/// Whether a directory only sorts books and says nothing of one.
pub fn is_catalog_bucket(value: &str, source_type: &str) -> (r: bool)
    ensures
        r == is_bucket(value@, source_type@),
{
    let bare = trim(value, CharClass::White);
    let lower = ascii_lower(bare.as_str());
    let t = lower.as_str();
    if t.is_empty() || bucket_word(t) {
        return true;
    }
    (same(source_type, "115") || same(source_type, "quark")) && (same(t, "115") || same(
        t,
        "115网盘",
    ) || same(t, "夸克") || same(t, "夸克网盘") || same(t, "quark") || same(t, "cloud") || same(
        t,
        "云盘",
    ))
}

// ------------------------------------------------------------------
// Directories above
// ------------------------------------------------------------------

/// Whether a directory merely repeats the file: flattened catalogs keep such
/// a node for each file, and it counts for nothing.
pub open spec fn is_synthetic(parent: LibraryIndexRow, filename: Seq<char>) -> bool {
    let name = base_name(parent.name@, parent.path@);
    same_ignoring_case(name, filename) || names_archive(name)
}

/// The stored names of the directories above, nearest first, at most `room`
/// of them. The chain ends at a row that is missing, deleted, no directory,
/// or already seen; `steps` bounds its length.
pub open spec fn ancestors(
    next: Option<Seq<char>>,
    index: Map<Seq<char>, LibraryIndexRow>,
    seen: Set<Seq<char>>,
    room: nat,
    filename: Seq<char>,
    steps: nat,
) -> Seq<Seq<char>>
    decreases steps,
{
    if steps == 0 || room == 0 {
        Seq::<Seq<char>>::empty()
    } else {
        match next {
            None => Seq::<Seq<char>>::empty(),
            Some(id) => if seen.contains(id) || !index.dom().contains(id) || index[id].deleted
                || index[id].entry_type@ != "dir"@ {
                Seq::<Seq<char>>::empty()
            } else {
                let up = opt_text(index[id].parent_id);
                let left = (steps - 1) as nat;
                if is_synthetic(index[id], filename) {
                    ancestors(up, index, seen.insert(id), room, filename, left)
                } else {
                    seq![index[id].name@] + ancestors(
                        up,
                        index,
                        seen.insert(id),
                        (room - 1) as nat,
                        filename,
                        left,
                    )
                }
            },
        }
    }
}

/// The stored names of the directories above a file. No chain visits a row
/// twice, so none is longer than the index.
pub fn persisted_ancestors(
    entry: &LibraryIndexRow,
    current_filename: &str,
    index: &CatalogIndex,
    max_depth: usize,
) -> (r: Vec<String>)
    requires
        index.wf(),
    ensures
        texts(r@) == ancestors(
            opt_text(entry.parent_id),
            index.by_id(),
            Set::<Seq<char>>::empty(),
            max_depth as nat,
            current_filename@,
            index.rows@.len() + 1,
        ),
{
    let mut output: Vec<String> = Vec::new();
    let mut next: Option<String> = entry.parent_id.clone();
    let mut seen: Vec<String> = Vec::new();
    let mut left: usize = index.rows.len();
    let mut first = true;
    let ghost by_id = index.by_id();
    let ghost whole = ancestors(
        opt_text(entry.parent_id),
        by_id,
        Set::<Seq<char>>::empty(),
        max_depth as nat,
        current_filename@,
        index.rows@.len() + 1,
    );
    let ghost mut steps: nat = index.rows@.len() + 1;
    assert(set_of(seen@) =~= Set::<Seq<char>>::empty());
    assert(texts(output@) =~= Seq::<Seq<char>>::empty());
    assert(texts(output@) + whole =~= whole);
    loop
        invariant
            index.wf(),
            by_id == index.by_id(),
            all_differ(seen@),
            output@.len() <= max_depth,
            steps == left + (if first {
                1nat
            } else {
                0nat
            }),
            texts(output@) + ancestors(
                opt_text(next),
                by_id,
                set_of(seen@),
                (max_depth - output@.len()) as nat,
                current_filename@,
                steps,
            ) == whole,
        ensures
            texts(output@) == whole,
        decreases left, (if first {
            1int
        } else {
            0int
        }),
    {
        if output.len() >= max_depth {
            assert(texts(output@) + Seq::<Seq<char>>::empty() =~= texts(output@));
            break;
        }
        if left == 0 && !first {
            assert(texts(output@) + Seq::<Seq<char>>::empty() =~= texts(output@));
            break;
        }
        let id = match next {
            Some(id) => id,
            None => {
                assert(texts(output@) + Seq::<Seq<char>>::empty() =~= texts(output@));
                break;
            },
        };
        if list_has(&seen, id.as_str()) {
            assert(set_of(seen@).contains(id@));
            assert(texts(output@) + Seq::<Seq<char>>::empty() =~= texts(output@));
            break;
        }
        assert(!set_of(seen@).contains(id@));
        add_unique(&mut seen, id.as_str());
        let at: usize = match index.find(id.as_str()) {
            Some(i) => i,
            None => {
                assert(texts(output@) + Seq::<Seq<char>>::empty() =~= texts(output@));
                break;
            },
        };
        let parent = &index.rows[at];
        if parent.deleted || !same(parent.entry_type.as_str(), "dir") {
            assert(texts(output@) + Seq::<Seq<char>>::empty() =~= texts(output@));
            break;
        }
        let parent_name = basename(parent.name.as_str(), parent.path.as_str());
        let ghost before = output@;
        if eq_ignore_case(parent_name.as_str(), current_filename) || has_archive_extension(
            parent_name.as_str(),
        ) {
            next = parent.parent_id.clone();
        } else {
            output.push(parent.name.clone());
            next = parent.parent_id.clone();
            proof {
                assert(texts(output@) =~= texts(before).push(parent.name@));
                let rest = ancestors(
                    opt_text(next),
                    by_id,
                    set_of(seen@),
                    (max_depth - output@.len()) as nat,
                    current_filename@,
                    (steps - 1) as nat,
                );
                assert(texts(before) + (seq![parent.name@] + rest) =~= texts(output@) + rest);
            }
        }
        if first {
            first = false;
        } else {
            left = left - 1;
        }
        proof {
            steps = (steps - 1) as nat;
        }
    }
    output
}

/// No more directories are listed than there is room for.
pub proof fn law_ancestors_fit_the_depth(
    next: Option<Seq<char>>,
    index: Map<Seq<char>, LibraryIndexRow>,
    seen: Set<Seq<char>>,
    room: nat,
    filename: Seq<char>,
    steps: nat,
)
    ensures
        ancestors(next, index, seen, room, filename, steps).len() <= room,
    decreases steps,
{
    if steps > 0 && room > 0 && next is Some {
        let id = next->0;
        if !(seen.contains(id) || !index.dom().contains(id) || index[id].deleted
            || index[id].entry_type@ != "dir"@) {
            let up = opt_text(index[id].parent_id);
            let left = (steps - 1) as nat;
            if is_synthetic(index[id], filename) {
                law_ancestors_fit_the_depth(up, index, seen.insert(id), room, filename, left);
            } else {
                law_ancestors_fit_the_depth(
                    up,
                    index,
                    seen.insert(id),
                    (room - 1) as nat,
                    filename,
                    left,
                );
            }
        }
    }
}

/// No chain visits a row twice, so a bound above the number of rows not seen
/// yet never cuts one off.
pub proof fn law_longer_bounds_add_nothing(
    next: Option<Seq<char>>,
    index: Map<Seq<char>, LibraryIndexRow>,
    seen: Set<Seq<char>>,
    room: nat,
    filename: Seq<char>,
    steps: nat,
    more: nat,
)
    requires
        index.dom().finite(),
        index.dom().difference(seen).len() < steps <= more,
    ensures
        ancestors(next, index, seen, room, filename, steps) == ancestors(
            next,
            index,
            seen,
            room,
            filename,
            more,
        ),
    decreases steps,
{
    if room > 0 && next is Some {
        let id = next->0;
        if !(seen.contains(id) || !index.dom().contains(id) || index[id].deleted
            || index[id].entry_type@ != "dir"@) {
            let up = opt_text(index[id].parent_id);
            let later = seen.insert(id);
            assert(index.dom().difference(later) =~= index.dom().difference(seen).remove(id));
            let left = (steps - 1) as nat;
            let rest = (more - 1) as nat;
            if is_synthetic(index[id], filename) {
                law_longer_bounds_add_nothing(up, index, later, room, filename, left, rest);
            } else {
                let lower = (room - 1) as nat;
                law_longer_bounds_add_nothing(up, index, later, lower, filename, left, rest);
            }
        }
    }
}

/// An index has no more ids than rows, so the bound that
/// `persisted_ancestors` uses never cuts a chain off.
pub proof fn law_no_chain_is_cut_off(
    next: Option<Seq<char>>,
    rows: Seq<LibraryIndexRow>,
    room: nat,
    filename: Seq<char>,
    more: nat,
)
    requires
        rows.len() < more,
    ensures
        ancestors(
            next,
            rows_by_id(rows),
            Set::<Seq<char>>::empty(),
            room,
            filename,
            rows.len() + 1,
        ) == ancestors(next, rows_by_id(rows), Set::<Seq<char>>::empty(), room, filename, more),
{
    let index = rows_by_id(rows);
    lemma_rows_by_id_size(rows);
    assert(index.dom().difference(Set::<Seq<char>>::empty()) =~= index.dom());
    law_longer_bounds_add_nothing(
        next,
        index,
        Set::<Seq<char>>::empty(),
        room,
        filename,
        rows.len() + 1,
        more,
    );
}

proof fn lemma_rows_by_id_size(rows: Seq<LibraryIndexRow>)
    ensures
        rows_by_id(rows).dom().finite(),
        rows_by_id(rows).dom().len() <= rows.len(),
    decreases rows.len(),
{
    if rows.len() > 0 {
        lemma_rows_by_id_size(rows.drop_last());
        let before = rows_by_id(rows.drop_last()).dom();
        assert(rows_by_id(rows).dom() =~= before.insert(rows.last().id@));
    }
}

/// The directories that say something of a book: their own names, without
/// those that only sort.
pub open spec fn telling(names: Seq<Seq<char>>, source_type: Seq<char>) -> Seq<Seq<char>>
    decreases names.len(),
{
    if names.len() == 0 {
        Seq::<Seq<char>>::empty()
    } else {
        let rest = telling(names.drop_last(), source_type);
        let name = last_segment(names.last());
        if name.len() > 0 && !is_bucket(name, source_type) {
            rest.push(name)
        } else {
            rest
        }
    }
}

fn telling_names(names: &Vec<String>, source_type: &str) -> (r: Vec<String>)
    ensures
        texts(r@) == telling(texts(names@), source_type@),
{
    let mut out: Vec<String> = Vec::new();
    let mut i: usize = 0;
    assert(texts(out@) =~= Seq::<Seq<char>>::empty());
    while i < names.len()
        invariant
            i <= names.len(),
            texts(out@) == telling(texts(names@).take(i as int), source_type@),
        decreases names.len() - i,
    {
        assert(texts(names@).take(i + 1).drop_last() =~= texts(names@).take(i as int));
        assert(texts(names@).take(i + 1).last() == names@[i as int]@);
        let name = basename(names[i].as_str(), names[i].as_str());
        if !name.as_str().is_empty() && !is_catalog_bucket(name.as_str(), source_type) {
            let ghost before = out@;
            out.push(name);
            assert(texts(out@) =~= texts(before).push(name@));
        }
        i = i + 1;
    }
    assert(texts(names@).take(i as int) =~= texts(names@));
    out
}

// ------------------------------------------------------------------
// Files beside
// ------------------------------------------------------------------

/// Whether a row is a file beside `entry`: another live file of the same
/// directory whose name differs by more than ASCII case.
pub open spec fn is_sibling(row: LibraryIndexRow, entry: LibraryIndexRow) -> bool {
    let name = base_name(row.name@, row.path@);
    &&& entry.parent_id is Some
    &&& !row.deleted
    &&& row.entry_type@ == "file"@
    &&& opt_text(row.parent_id) == opt_text(entry.parent_id)
    &&& row.id@ != entry.id@
    &&& name.len() > 0
    &&& !same_ignoring_case(name, base_name(entry.name@, entry.path@))
}

/// The names of the files beside `entry` among the first `n` rows.
pub open spec fn sibling_names(rows: Seq<LibraryIndexRow>, n: int, entry: LibraryIndexRow) -> Set<
    Seq<char>,
> {
    Set::new(
        |name: Seq<char>|
            exists|i: int|
                0 <= i < n && is_sibling(#[trigger] rows[i], entry) && base_name(
                    rows[i].name@,
                    rows[i].path@,
                ) == name,
    )
}

/// Whether texts are in strictly ascending order.
pub open spec fn ascending(v: Seq<String>) -> bool {
    forall|i: int, j: int|
        0 <= i < j < v.len() ==> text_le(#[trigger] v[i]@, #[trigger] v[j]@) && v[i]@ != v[j]@
}

/// The names of the files beside `entry`, each once and in ascending order.
pub fn persisted_siblings(entry: &LibraryIndexRow, index: &CatalogIndex) -> (r: Vec<String>)
    ensures
        set_of(r@) == sibling_names(index.rows@, index.rows@.len() as int, *entry),
        ascending(r@),
{
    let mut names: Vec<String> = Vec::new();
    let current = basename(entry.name.as_str(), entry.path.as_str());
    let mut i: usize = 0;
    proof {
        assert(set_of(names@) =~= Set::<Seq<char>>::empty());
        assert(sibling_names(index.rows@, 0, *entry) =~= Set::<Seq<char>>::empty());
    }
    while i < index.rows.len()
        invariant
            i <= index.rows.len(),
            current@ == base_name(entry.name@, entry.path@),
            all_differ(names@),
            set_of(names@) == sibling_names(index.rows@, i as int, *entry),
        decreases index.rows.len() - i,
    {
        let row = &index.rows[i];
        let name = basename(row.name.as_str(), row.path.as_str());
        proof {
            lemma_sibling_step(index.rows@, i as int, *entry);
        }
        if entry.parent_id.is_some() && !row.deleted && same(row.entry_type.as_str(), "file")
            && same_opt(&row.parent_id, &entry.parent_id) && !same(
            row.id.as_str(),
            entry.id.as_str(),
        ) && !name.as_str().is_empty() && !eq_ignore_case(name.as_str(), current.as_str()) {
            add_unique(&mut names, name.as_str());
        }
        i = i + 1;
    }
    let sorted = sort_texts(&names);
    proof {
        lemma_sorted_copy(sorted@, names@);
    }
    sorted
}

proof fn lemma_sibling_step(rows: Seq<LibraryIndexRow>, i: int, entry: LibraryIndexRow)
    requires
        0 <= i < rows.len(),
    ensures
        sibling_names(rows, i + 1, entry) == (if is_sibling(rows[i], entry) {
            sibling_names(rows, i, entry).insert(base_name(rows[i].name@, rows[i].path@))
        } else {
            sibling_names(rows, i, entry)
        }),
{
    let now = sibling_names(rows, i + 1, entry);
    let was = sibling_names(rows, i, entry);
    let here = base_name(rows[i].name@, rows[i].path@);
    assert forall|name: Seq<char>| #[trigger] now.contains(name) <==> (was.contains(name) || (
    is_sibling(rows[i], entry) && here == name)) by {
        if now.contains(name) {
            let k = choose|k: int|
                0 <= k < i + 1 && is_sibling(#[trigger] rows[k], entry) && base_name(
                    rows[k].name@,
                    rows[k].path@,
                ) == name;
            if k < i {
                assert(was.contains(name));
            }
        }
    }
    if is_sibling(rows[i], entry) {
        assert(now =~= was.insert(here));
    } else {
        assert(now =~= was);
    }
}

/// The file itself is never among those beside it, not even under another
/// id.
pub proof fn law_file_is_not_beside_itself(
    rows: Seq<LibraryIndexRow>,
    n: int,
    entry: LibraryIndexRow,
)
    ensures
        !sibling_names(rows, n, entry).contains(base_name(entry.name@, entry.path@)),
{
}

// ------------------------------------------------------------------
// The context
// ------------------------------------------------------------------

/// The context in which a file stands.
pub struct CatalogAssetContext {
    pub asset_key: String,
    pub book_key: String,
    pub source_type: String,
    pub source_id: String,
    pub path: String,
    pub filename: String,
    /// Nearest first.
    pub ancestor_dirs: Vec<String>,
    /// Without the file itself.
    pub parent_siblings: Vec<String>,
}

/// Whether `context` is that of an entry.
pub open spec fn is_context(
    context: CatalogAssetContext,
    entry: LibraryIndexRow,
    asset_key: Seq<char>,
    source_type: Seq<char>,
    index: CatalogIndex,
    depth: nat,
) -> bool {
    let filename = base_name(entry.name@, entry.path@);
    &&& context.asset_key@ == asset_key
    &&& context.book_key@ == book_key(source_type, entry.source_id@, entry.path@)
    &&& context.source_type@ == source_type
    &&& context.source_id@ == entry.source_id@
    &&& context.path@ == entry.path@
    &&& context.filename@ == filename
    &&& texts(context.ancestor_dirs@) == telling(
        ancestors(
            opt_text(entry.parent_id),
            index.by_id(),
            Set::<Seq<char>>::empty(),
            depth,
            filename,
            index.rows@.len() + 1,
        ),
        source_type,
    )
    &&& set_of(context.parent_siblings@) == sibling_names(
        index.rows@,
        index.rows@.len() as int,
        entry,
    )
    &&& ascending(context.parent_siblings@)
}

/// The context of an entry of the index, under the key of its asset.
pub fn normalize_entry(
    entry: &LibraryIndexRow,
    asset_key: &str,
    source_type: &str,
    index: &CatalogIndex,
    ancestor_depth: usize,
) -> (r: CatalogAssetContext)
    requires
        index.wf(),
    ensures
        is_context(r, *entry, asset_key@, source_type@, *index, ancestor_depth as nat),
{
    let filename = basename(entry.name.as_str(), entry.path.as_str());
    let above = persisted_ancestors(entry, filename.as_str(), index, ancestor_depth);
    let ancestor_dirs = telling_names(&above, source_type);
    let parent_siblings = persisted_siblings(entry, index);
    CatalogAssetContext {
        asset_key: asset_key.to_owned(),
        book_key: book_key_of(source_type, entry.source_id.as_str(), entry.path.as_str()),
        source_type: source_type.to_owned(),
        source_id: entry.source_id.clone(),
        path: entry.path.clone(),
        filename,
        ancestor_dirs,
        parent_siblings,
    }
}

/// What the parser of names is given.
pub struct CatalogSnapshot {
    pub book_key: String,
    pub filename: String,
    pub ancestor_dirs: Vec<String>,
    pub parent_siblings: Vec<String>,
}

/// What the parser of names is given of a context.
pub fn to_snapshot(context: &CatalogAssetContext) -> (r: CatalogSnapshot)
    ensures
        r.book_key == context.book_key,
        r.filename == context.filename,
        r.ancestor_dirs@ == context.ancestor_dirs@,
        r.parent_siblings@ == context.parent_siblings@,
{
    CatalogSnapshot {
        book_key: context.book_key.clone(),
        filename: context.filename.clone(),
        ancestor_dirs: clone_list(&context.ancestor_dirs),
        parent_siblings: clone_list(&context.parent_siblings),
    }
}

// ------------------------------------------------------------------
// What a context promises
// ------------------------------------------------------------------

/// Of several rows with one id the last counts, and there is one for each id
/// that a row has.
pub proof fn law_last_row_of_an_id_counts(
    rows: Seq<LibraryIndexRow>,
    row: LibraryIndexRow,
    id: Seq<char>,
)
    ensures
        rows_by_id(Seq::<LibraryIndexRow>::empty()).dom() == Set::<Seq<char>>::empty(),
        rows_by_id(rows.push(row)).dom().contains(id) <==> row.id@ == id || rows_by_id(
            rows,
        ).dom().contains(id),
        rows_by_id(rows.push(row))[row.id@] == row,
        id != row.id@ && rows_by_id(rows).dom().contains(id) ==> rows_by_id(rows.push(row))[id]
            == rows_by_id(rows)[id],
{
    assert(rows.push(row).drop_last() =~= rows);
}

/// The file name of a row is what stands behind the last separator of its
/// name; where that leaves nothing, of its path. White space around either
/// does not count.
pub proof fn law_file_names_stand_behind_the_separator(
    dir: Seq<char>,
    sep: char,
    file: Seq<char>,
    path: Seq<char>,
    blank: Seq<char>,
)
    requires
        sep == '/' || sep == '\\',
        file.len() > 0,
        forall|i: int| 0 <= i < file.len() ==> #[trigger] file[i] != '/' && file[i] != '\\',
        !CharClass::White.holds(file[0]),
        !CharClass::White.holds(file.last()),
        dir.len() > 0 ==> !CharClass::White.holds(dir[0]),
        last_segment(blank).len() == 0,
    ensures
        last_segment(file) == file,
        last_segment(dir + seq![sep] + file) == file,
        base_name(file, path) == file,
        base_name(dir + seq![sep] + file, path) == file,
        base_name(blank, dir + seq![sep] + file) == file,
{
    let none = Seq::<char>::empty();
    let whole = dir + seq![sep] + file;
    law_trimming_finds_the_core(none, file, none, CharClass::White);
    assert(none + file + none =~= file);
    law_trimming_finds_the_core(none, whole, none, CharClass::White);
    assert(none + whole + none =~= whole);
    assert(whole[0] == (if dir.len() > 0 {
        dir[0]
    } else {
        sep
    }));
    assert(whole.last() == file.last());
    lemma_behind_the_separator(dir, sep, file);
    lemma_no_separator_at_all(file);
}

proof fn lemma_behind_the_separator(dir: Seq<char>, sep: char, file: Seq<char>)
    requires
        CharClass::Separator.holds(sep),
        forall|i: int| 0 <= i < file.len() ==> !CharClass::Separator.holds(#[trigger] file[i]),
    ensures
        after_last_in(dir + seq![sep] + file, CharClass::Separator) == file,
    decreases file.len(),
{
    let s = dir + seq![sep] + file;
    if file.len() == 0 {
        assert(s.last() == sep);
        assert(file =~= Seq::<char>::empty());
    } else {
        let rest = file.drop_last();
        assert forall|i: int| 0 <= i < rest.len() implies !CharClass::Separator.holds(
            #[trigger] rest[i],
        ) by {
            assert(rest[i] == file[i]);
        }
        lemma_behind_the_separator(dir, sep, rest);
        assert(!CharClass::Separator.holds(file[file.len() - 1]));
        assert(s.last() == file.last());
        assert(s.drop_last() =~= dir + seq![sep] + rest);
        assert(rest.push(file.last()) =~= file);
    }
}

proof fn lemma_no_separator_at_all(file: Seq<char>)
    requires
        forall|i: int| 0 <= i < file.len() ==> !CharClass::Separator.holds(#[trigger] file[i]),
    ensures
        after_last_in(file, CharClass::Separator) == file,
    decreases file.len(),
{
    if file.len() > 0 {
        let rest = file.drop_last();
        assert forall|i: int| 0 <= i < rest.len() implies !CharClass::Separator.holds(
            #[trigger] rest[i],
        ) by {
            assert(rest[i] == file[i]);
        }
        lemma_no_separator_at_all(rest);
        assert(!CharClass::Separator.holds(file[file.len() - 1]));
        assert(rest.push(file.last()) =~= file);
    } else {
        assert(after_last_in(file, CharClass::Separator) =~= file);
    }
}

/// A name is that of an archive by its ending, one of eight; these are the
/// endings without which a book is known in the library.
pub proof fn law_archives_are_known_by_their_ending(value: Seq<char>)
    ensures
        names_archive(value) <==> ends(lowered(stripped(value)), ".cbz"@) || ends(
            lowered(stripped(value)),
            ".zip"@,
        ) || ends(lowered(stripped(value)), ".cbr"@) || ends(lowered(stripped(value)), ".rar"@)
            || ends(lowered(stripped(value)), ".cb7"@) || ends(lowered(stripped(value)), ".7z"@)
            || ends(lowered(stripped(value)), ".cbt"@) || ends(lowered(stripped(value)), ".tar"@),
        stripped(value) == value && names_archive(value) ==> library_path(value).len()
            < value.len() && library_path(value) == value.take(library_path(value).len() as int),
        stripped(value) == value && !names_archive(value) && !ends(lowered(value), ".azw3"@)
            && !ends(lowered(value), ".azw"@) ==> library_path(value) == value,
{
    reveal_strlit(".cbz");
    reveal_strlit(".zip");
    reveal_strlit(".cbr");
    reveal_strlit(".rar");
    reveal_strlit(".cb7");
    reveal_strlit(".7z");
    reveal_strlit(".cbt");
    reveal_strlit(".tar");
    assert(lowered(value).len() == value.len());
    if stripped(value) == value && names_archive(value) {
        assert(library_path(value) =~= value.take(library_path(value).len() as int));
    }
}

/// The words by which directories sort books.
pub proof fn law_sorting_words(t: Seq<char>)
    ensures
        is_bucket_word(t) <==> {
    ||| t == "epub"@ || t == "pdf"@ || t == "cbz"@ || t == "cbr"@ || t == "zip"@ || t == "rar"@
    ||| t == "mobi"@ || t == "azw"@ || t == "azw3"@ || t == "7z"@
    ||| t == "漫画"@ || t == "日漫"@ || t == "国漫"@ || t == "韩漫"@ || t == "韓漫"@ || t == "欧美"@
    ||| t == "manga"@ || t == "comic"@ || t == "comics"@
    ||| t == "小说"@ || t == "轻小说"@ || t == "杂志"@ || t == "图集"@ || t == "画集"@
    ||| t == "分类"@ || t == "分类目录"@ || t == "書架"@ || t == "书架"@
    ||| t == "library"@ || t == "downloads"@ || t == "download"@
    ||| t == "全部"@ || t == "全部文件"@ || t == "根目录"@ || t == "root"@
    ||| t == "collection"@ || t == "collections"@
    ||| t == "合集"@ || t == "全集"@ || t == "单行本"@ || t == "连载"@ || t == "番外"@
    ||| t == "tankoubon"@ || t == "serial"@
        },
        is_provider_root(t) <==> t == "115"@ || t == "115网盘"@ || t == "夸克"@ || t
            == "夸克网盘"@ || t == "quark"@ || t == "cloud"@ || t == "云盘"@,
{
}

/// A directory says nothing of a book where it is blank or, in any ASCII case
/// and with any white space around it, called by a word that sorts; the names
/// of clouds sort in their own sources alone.
pub proof fn law_sorting_directories_say_nothing(
    before: Seq<char>,
    word: Seq<char>,
    behind: Seq<char>,
    source_type: Seq<char>,
)
    requires
        forall|i: int| 0 <= i < before.len() ==> CharClass::White.holds(#[trigger] before[i]),
        forall|i: int| 0 <= i < behind.len() ==> CharClass::White.holds(#[trigger] behind[i]),
        word.len() > 0 ==> !CharClass::White.holds(word[0]) && !CharClass::White.holds(word.last()),
    ensures
        is_bucket(before + word + behind, source_type) <==> word.len() == 0 || is_bucket_word(
            lowered(word),
        ) || ((source_type == "115"@ || source_type == "quark"@) && is_provider_root(
            lowered(word),
        )),
{
    law_trimming_finds_the_core(before, word, behind, CharClass::White);
    assert(lowered(word).len() == word.len());
}

/// A directory only repeats the file where its own name is that of the file,
/// in any ASCII case, or that of an archive.
pub proof fn law_repeating_directories_are_told(parent: LibraryIndexRow, filename: Seq<char>)
    ensures
        is_synthetic(parent, filename) <==> lowered(base_name(parent.name@, parent.path@))
            == lowered(filename) || names_archive(base_name(parent.name@, parent.path@)),
{
}

/// Every directory that is listed above a file is a stored one, not deleted,
/// and more than a repetition of the file.
pub proof fn law_listed_directories_are_stored(
    next: Option<Seq<char>>,
    index: Map<Seq<char>, LibraryIndexRow>,
    seen: Set<Seq<char>>,
    room: nat,
    filename: Seq<char>,
    steps: nat,
    k: int,
)
    requires
        0 <= k < ancestors(next, index, seen, room, filename, steps).len(),
    ensures
        exists|id: Seq<char>| #[trigger]
            index.dom().contains(id) && !index[id].deleted && index[id].entry_type@ == "dir"@
                && !is_synthetic(index[id], filename) && index[id].name@ == ancestors(
                next,
                index,
                seen,
                room,
                filename,
                steps,
            )[k],
    decreases steps,
{
    let id = next->0;
    let up = opt_text(index[id].parent_id);
    let left = (steps - 1) as nat;
    if is_synthetic(index[id], filename) {
        law_listed_directories_are_stored(up, index, seen.insert(id), room, filename, left, k);
    } else if k > 0 {
        let rest = ancestors(up, index, seen.insert(id), (room - 1) as nat, filename, left);
        assert(ancestors(next, index, seen, room, filename, steps)[k] == rest[k - 1]);
        law_listed_directories_are_stored(
            up,
            index,
            seen.insert(id),
            (room - 1) as nat,
            filename,
            left,
            k - 1,
        );
    } else {
        assert(index.dom().contains(id));
    }
}

/// The nearest directory comes first, and those above it follow; one that
/// repeats the file is passed over, and nothing stands above one that is
/// deleted, missing or no directory.
pub proof fn law_nearest_directory_comes_first(
    id: Seq<char>,
    index: Map<Seq<char>, LibraryIndexRow>,
    seen: Set<Seq<char>>,
    room: nat,
    filename: Seq<char>,
    steps: nat,
)
    requires
        steps > 0,
        room > 0,
        !seen.contains(id),
    ensures
        ({
            let all = ancestors(Some(id), index, seen, room, filename, steps);
            let row = index[id];
            let up = match row.parent_id {
                Some(p) => Some(p@),
                None => None,
            };
            let live = index.dom().contains(id) && !row.deleted && row.entry_type@ == "dir"@;
            &&& !live ==> all.len() == 0
            &&& live && !is_synthetic(row, filename) ==> all == seq![row.name@] + ancestors(
                up,
                index,
                seen.insert(id),
                (room - 1) as nat,
                filename,
                (steps - 1) as nat,
            )
            &&& live && is_synthetic(row, filename) ==> all == ancestors(
                up,
                index,
                seen.insert(id),
                room,
                filename,
                (steps - 1) as nat,
            )
        }),
{
}

/// Of the directories above a file those tell something that have a name and
/// do not only sort; they are told in their order.
pub proof fn law_telling_directories_are_kept(
    names: Seq<Seq<char>>,
    name: Seq<char>,
    source_type: Seq<char>,
)
    ensures
        telling(Seq::<Seq<char>>::empty(), source_type).len() == 0,
        telling(names.push(name), source_type) == (if last_segment(name).len() > 0 && !is_bucket(
            last_segment(name),
            source_type,
        ) {
            telling(names, source_type).push(last_segment(name))
        } else {
            telling(names, source_type)
        }),
{
    assert(names.push(name).drop_last() =~= names);
}

/// A file stands beside another where both are in one directory, it is
/// stored as a file and not deleted, and it has another id and, in any ASCII
/// case, another name.
pub proof fn law_files_beside_one_another(row: LibraryIndexRow, entry: LibraryIndexRow)
    ensures
        is_sibling(row, entry) <==> !row.deleted && row.entry_type@ == "file"@ && row.id@
            != entry.id@ && (row.parent_id matches Some(a) && (entry.parent_id matches Some(b) && a@
            == b@)) && base_name(row.name@, row.path@).len() > 0 && lowered(
            base_name(row.name@, row.path@),
        ) != lowered(base_name(entry.name@, entry.path@)),
{
}

/// The context of an entry has its own key, name and path, the key of its
/// book, and the files beside it in ascending order.
pub proof fn law_contexts_are_those_of_their_entry(
    context: CatalogAssetContext,
    entry: LibraryIndexRow,
    asset_key: Seq<char>,
    source_type: Seq<char>,
    index: CatalogIndex,
    depth: nat,
    a: int,
    b: int,
    name: Seq<char>,
)
    requires
        is_context(context, entry, asset_key, source_type, index, depth),
    ensures
        context.asset_key@ == asset_key && context.source_type@ == source_type
            && context.source_id@ == entry.source_id@ && context.path@ == entry.path@,
        context.book_key@ == source_type + "|"@ + entry.source_id@ + "|"@ + library_path(
            entry.path@,
        ),
        context.filename@ == base_name(entry.name@, entry.path@),
        context.ancestor_dirs@.len() == telling(
            ancestors(
                opt_text(entry.parent_id),
                rows_by_id(index.rows@),
                Set::<Seq<char>>::empty(),
                depth,
                base_name(entry.name@, entry.path@),
                index.rows@.len() + 1,
            ),
            source_type,
        ).len(),
        listed(context.parent_siblings@, name) <==> exists|i: int|
            0 <= i < index.rows@.len() && is_sibling(#[trigger] index.rows@[i], entry) && base_name(
                index.rows@[i].name@,
                index.rows@[i].path@,
            ) == name,
        0 <= a < b < context.parent_siblings@.len() ==> text_le(
            context.parent_siblings@[a]@,
            context.parent_siblings@[b]@,
        ) && context.parent_siblings@[a]@ != context.parent_siblings@[b]@,
{
    assert(texts(context.ancestor_dirs@).len() == context.ancestor_dirs@.len());
    assert(set_of(context.parent_siblings@).contains(name) <==> listed(
        context.parent_siblings@,
        name,
    ));
}

} // verus!
