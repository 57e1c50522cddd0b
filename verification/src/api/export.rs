//! Folders of images as comic archives.

use vstd::prelude::*;
use vstd::string::*;
use vstd::utf8::encode_utf8;

use crate::number::digits_value;
use crate::order::{
    key_le, keys_of, law_numbers_in_names_count_by_value, lemma_reordered_multiset,
    lemma_stable_order_complete, lemma_stable_order_exists, natural_key, natural_key_of,
    natural_keys, ranked_before, stable_order, the_order, Token,
};
use crate::text::{
    after_last, begins, cat2, contains, ends, ends_with, occurs, same, starts_with, tail_after,
    texts, to_lowercase, unicode_lowercase,
};

verus! {

// ------------------------------------------------------------------
// What goes into the archive
// ------------------------------------------------------------------

/// An entry of the folder.
pub struct FolderEntry {
    pub name: String,
    pub is_dir: bool,
}

/// The endings of images.
pub open spec fn is_image_ending(ending: Seq<char>) -> bool {
    ||| ending == "jpg"@ || ending == "jpeg"@ || ending == "png"@ || ending == "webp"@
    ||| ending == "gif"@ || ending == "bmp"@ || ending == "avif"@
}

/// Whether a name in lower case is that of an image: hidden files and what
/// archivers leave behind are not, and the ending must be one of those known.
pub open spec fn names_image(lower: Seq<char>) -> bool {
    &&& !begins(lower, "."@)
    &&& !occurs(lower, "__macosx"@)
    &&& !ends(lower, ".ds_store"@)
    &&& is_image_ending(after_last(lower, '.'))
}

/// Whether a name in lower case is that of an image.
pub fn lower_name_is_image(lower: &str) -> (r: bool)
    ensures
        r == names_image(lower@),
{
    if starts_with(lower, ".") || contains(lower, "__macosx") || ends_with(lower, ".ds_store") {
        return false;
    }
    let ending = tail_after(lower, '.');
    let e = ending.as_str();
    same(e, "jpg") || same(e, "jpeg") || same(e, "png") || same(e, "webp") || same(e, "gif")
        || same(e, "bmp") || same(e, "avif")
}

/// Whether a name is that of an image, whatever its case.
pub fn is_image_name(name: &str) -> (r: bool)
    ensures
        r == names_image(unicode_lowercase(name@)),
{
    let lower = to_lowercase(name);
    lower_name_is_image(lower.as_str())
}

/// The names of the images among the first `n` entries, in the order of the
/// folder.
pub open spec fn image_names(entries: Seq<FolderEntry>, n: int) -> Seq<Seq<char>>
    decreases n,
{
    if n <= 0 {
        Seq::<Seq<char>>::empty()
    } else {
        let rest = image_names(entries, n - 1);
        let entry = entries[n - 1];
        if !entry.is_dir && names_image(unicode_lowercase(entry.name@)) {
            rest.push(entry.name@)
        } else {
            rest
        }
    }
}

/// Names in their natural order.
pub open spec fn naturally_ordered(names: Seq<Seq<char>>) -> Seq<Seq<char>> {
    Seq::new(names.len(), |k: int| names[the_order(natural_keys(names))[k] as int])
}

/// Which of the files that describe a comic can be found in a folder, by
/// their paths.
pub struct Descriptions {
    /// `ComicInfo.xml`
    pub comic_info: bool,
    /// `metadata.json`
    pub metadata: bool,
}

/// The names that an archive holds, in its order: the images in natural
/// order, then what describes them.
pub open spec fn archive_names(entries: Seq<FolderEntry>, found: Descriptions) -> Seq<Seq<char>> {
    let images = naturally_ordered(image_names(entries, entries.len() as int));
    let comic = if found.comic_info {
        images.push("ComicInfo.xml"@)
    } else {
        images
    };
    if found.metadata {
        comic.push("metadata.json"@)
    } else {
        comic
    }
}

fn in_natural_order(names: &Vec<String>) -> (r: Vec<String>)
    ensures
        texts(r@) == naturally_ordered(texts(names@)),
{
    let ghost keys = natural_keys(texts(names@));
    let mut list: Vec<Vec<Token>> = Vec::new();
    let mut i: usize = 0;
    while i < names.len()
        invariant
            keys == natural_keys(texts(names@)),
            i <= names.len(),
            list.len() == i,
            forall|j: int| 0 <= j < i ==> (#[trigger] list@[j])@ == keys[j],
        decreases names.len() - i,
    {
        let key = natural_key_of(names[i].as_str());
        assert(keys[i as int] == key@);
        list.push(key);
        i = i + 1;
    }
    assert(keys_of(list@) =~= keys);
    let order = stable_order(&list);
    let mut out: Vec<String> = Vec::new();
    let mut k: usize = 0;
    while k < order.len()
        invariant
            order@ == the_order(keys),
            order.len() == names.len(),
            forall|j: int| 0 <= j < order.len() ==> #[trigger] order@[j] < names.len(),
            k <= order.len(),
            out.len() == k,
            forall|j: int| 0 <= j < k ==> (#[trigger] out@[j])@ == names@[order@[j] as int]@,
        decreases order.len() - k,
    {
        out.push(names[order[k]].clone());
        k = k + 1;
    }
    proof {
        assert forall|j: int| 0 <= j < out@.len() implies texts(out@)[j] == naturally_ordered(
            texts(names@),
        )[j] by {
            assert(out@[j]@ == names@[order@[j] as int]@);
        }
        assert(texts(out@) =~= naturally_ordered(texts(names@)));
    }
    out
}

/// The names of what an export packs, in order. It is refused where the path
/// is no directory or holds no image.
pub fn export_folder_to_cbz(
    src_dir: &str,
    is_dir: bool,
    entries: &Vec<FolderEntry>,
    found: &Descriptions,
) -> (r: Result<Vec<String>, String>)
    ensures
        match r {
            Ok(names) => {
                &&& is_dir
                &&& image_names(entries@, entries@.len() as int).len() > 0
                &&& texts(names@) == archive_names(entries@, *found)
            },
            Err(text) => if !is_dir {
                text@ == "不是目录: "@ + src_dir@
            } else {
                &&& image_names(entries@, entries@.len() as int).len() == 0
                &&& text@ == "目录下没有图片文件: "@ + src_dir@
            },
        },
{
    if !is_dir {
        return Err(cat2("不是目录: ", src_dir));
    }
    let mut images: Vec<String> = Vec::new();
    let mut i: usize = 0;
    assert(texts(images@) =~= Seq::<Seq<char>>::empty());
    while i < entries.len()
        invariant
            i <= entries.len(),
            texts(images@) == image_names(entries@, i as int),
        decreases entries.len() - i,
    {
        let entry = &entries[i];
        if !entry.is_dir && is_image_name(entry.name.as_str()) {
            let ghost before = images@;
            images.push(entry.name.clone());
            assert(texts(images@) =~= texts(before).push(entry.name@));
        }
        i = i + 1;
    }
    assert(images@.len() == texts(images@).len());
    if images.len() == 0 {
        return Err(cat2("目录下没有图片文件: ", src_dir));
    }
    let mut names = in_natural_order(&images);
    let ghost sorted = names@;
    if found.comic_info {
        names.push("ComicInfo.xml".to_owned());
        assert(texts(names@) =~= texts(sorted).push("ComicInfo.xml"@));
    }
    let ghost described = names@;
    if found.metadata {
        names.push("metadata.json".to_owned());
        assert(texts(names@) =~= texts(described).push("metadata.json"@));
    }
    Ok(names)
}

// ------------------------------------------------------------------
// The archive itself
// ------------------------------------------------------------------

/// The writer of the crate `zip`, over a buffer in memory.
#[verifier::external_body]
pub struct CbzWriter {
    inner: zip::ZipWriter<std::io::Cursor<Vec<u8>>>,
}

/// The files that a writer has been given so far, in order, each with its
/// name and its bytes.
pub uninterp spec fn files_of(writer: CbzWriter) -> Seq<(Seq<char>, Seq<u8>)>;

/// The files that an archive in bytes holds, in the order of its directory,
/// as `zip::ZipArchive` reads them.
pub uninterp spec fn unpacked(bytes: Seq<u8>) -> Seq<(Seq<char>, Seq<u8>)>;

/// Whether every call on a writer has succeeded so far.
pub uninterp spec fn is_open(writer: CbzWriter) -> bool;

/// Whether one of the files has this name.
pub open spec fn has_file(files: Seq<(Seq<char>, Seq<u8>)>, name: Seq<char>) -> bool {
    exists|i: int| 0 <= i < files.len() && (#[trigger] files[i]).0 == name
}

/// The most bytes of a file that surely fit into an archive: 3.5 GiB. Even if
/// they do not compress, they stay below four gibibytes.
pub const SURE_FILE_BYTES: u64 = 0xe000_0000;

/// The most bytes of a file that may fit into an archive.
pub const MAX_FILE_BYTES: u64 = 0xffff_ffff;

/// Whether bytes are so few that they surely fit into an archive.
pub open spec fn surely_fits(bytes: Seq<u8>) -> bool {
    bytes.len() <= SURE_FILE_BYTES
}

/// Whether bytes are too many for any archive.
pub open spec fn never_fits(bytes: Seq<u8>) -> bool {
    bytes.len() > MAX_FILE_BYTES
}

/// Whether each file surely fits into an archive.
pub open spec fn all_fit(files: Seq<(Seq<char>, Seq<u8>)>) -> bool {
    forall|i: int| 0 <= i < files.len() ==> surely_fits((#[trigger] files[i]).1)
}

/// What the writer says of a file that is too long.
pub open spec fn too_long() -> Seq<char> {
    "Large file option has not been set"@
}

/// What the writer says of a name that it has already.
pub open spec fn repeated_name(name: Seq<char>) -> Seq<char> {
    "invalid Zip archive: Duplicate filename: "@ + name
}

/// Calls `zip::ZipWriter::new`: an archive without files.
#[verifier::external_body]
fn new_archive() -> (r: CbzWriter)
    ensures
        is_open(r),
        files_of(r) == Seq::<(Seq<char>, Seq<u8>)>::empty(),
{
    CbzWriter { inner: zip::ZipWriter::new(std::io::Cursor::new(Vec::new())) }
}

/// Calls `zip::ZipWriter::start_file`, with deflation and otherwise the
/// default options: where it succeeds the archive has one more file, still
/// empty. The length of a name is kept in two bytes; a longer one has no
/// place. A name that the archive has already is refused. Nothing else is
/// refused while the files before it surely fit, for the archive is written
/// to memory and its offsets may take eight bytes; else it may turn on how
/// well the last of them was compressed.
#[verifier::external_body]
fn start_file(writer: &mut CbzWriter, name: &str) -> (r: Result<(), String>)
    requires
        is_open(*old(writer)),
        encode_utf8(name@).len() <= 0xffff,
    ensures
        r is Ok ==> is_open(*final(writer)) && !has_file(files_of(*old(writer)), name@)
            && files_of(*final(writer)) == files_of(*old(writer)).push(
            (name@, Seq::<u8>::empty()),
        ),
        all_fit(files_of(*old(writer))) ==> match r {
            Ok(_) => true,
            Err(text) => has_file(files_of(*old(writer)), name@) && text@ == repeated_name(name@),
        },
{
    let options = zip::write::SimpleFileOptions::default()
        .compression_method(zip::CompressionMethod::Deflated);
    writer.inner.start_file(name, options).map_err(|e| e.to_string())
}

/// Calls `write_all` on a `zip::ZipWriter` whose last file is still empty:
/// where it succeeds the file holds the bytes. It succeeds for bytes that
/// surely fit, for the archive is written to memory, and refuses more than
/// four bytes can count.
#[verifier::external_body]
fn write_file(writer: &mut CbzWriter, bytes: &Vec<u8>) -> (r: Result<(), String>)
    requires
        is_open(*old(writer)),
        files_of(*old(writer)).len() > 0,
        files_of(*old(writer)).last().1.len() == 0,
    ensures
        r is Ok ==> is_open(*final(writer)) && files_of(*final(writer)) == files_of(
            *old(writer),
        ).drop_last().push((files_of(*old(writer)).last().0, bytes@)),
        surely_fits(bytes@) ==> r is Ok,
        never_fits(bytes@) ==> match r {
            Ok(_) => false,
            Err(text) => text@ == too_long(),
        },
{
    std::io::Write::write_all(&mut writer.inner, bytes).map_err(|e| e.to_string())
}

/// Calls `zip::ZipWriter::finish`: where all files surely fit it succeeds, and
/// the bytes are an archive that holds the files given to the writer, in
/// their order.
#[verifier::external_body]
fn finish_archive(writer: CbzWriter) -> (r: Result<Vec<u8>, String>)
    requires
        is_open(writer),
    ensures
        all_fit(files_of(writer)) ==> match r {
            Ok(bytes) => unpacked(bytes@) == files_of(writer),
            Err(_) => false,
        },
{
    writer.inner.finish().map(|cursor| cursor.into_inner()).map_err(|e| e.to_string())
}

/// The names and the bytes of files.
pub open spec fn contents_of(files: Seq<(String, Vec<u8>)>) -> Seq<(Seq<char>, Seq<u8>)> {
    Seq::new(files.len(), |i: int| (files[i].0@, files[i].1@))
}

/// Whether no two files have one name.
pub open spec fn names_differ(files: Seq<(String, Vec<u8>)>) -> bool {
    forall|i: int, j: int|
        0 <= i < j < files.len() ==> (#[trigger] files[i]).0@ != (#[trigger] files[j]).0@
}

/// Why the file at `i` is not packed behind those before it, if it is not.
pub open spec fn file_refusal(files: Seq<(Seq<char>, Seq<u8>)>, i: int) -> Option<Seq<char>> {
    if has_file(files.take(i), files[i].0) {
        Some(repeated_name(files[i].0))
    } else if never_fits(files[i].1) {
        Some(too_long())
    } else {
        None
    }
}

/// Why one of the first `n` files is not packed: the first refusal counts.
pub open spec fn first_refusal(files: Seq<(Seq<char>, Seq<u8>)>, n: int) -> Option<Seq<char>>
    decreases n,
{
    if n <= 0 {
        None
    } else {
        match first_refusal(files, n - 1) {
            Some(text) => Some(text),
            None => file_refusal(files, n - 1),
        }
    }
}

/// Whether the length of each file alone says if it fits: none is so long
/// that this turns on how well it compresses.
pub open spec fn lengths_decide(files: Seq<(Seq<char>, Seq<u8>)>) -> bool {
    forall|i: int|
        0 <= i < files.len() ==> surely_fits((#[trigger] files[i]).1) || never_fits(files[i].1)
}

/// A later refusal does not take the place of an earlier one.
proof fn lemma_first_refusal_stays(files: Seq<(Seq<char>, Seq<u8>)>, n: int, m: int)
    requires
        n <= m,
        first_refusal(files, n) is Some,
    ensures
        first_refusal(files, m) == first_refusal(files, n),
    decreases m - n,
{
    if n < m {
        lemma_first_refusal_stays(files, n, m - 1);
    }
}

/// Files that fit and have names of their own are refused nowhere.
proof fn lemma_fitting_files_are_not_refused(files: Seq<(String, Vec<u8>)>, n: int)
    requires
        0 <= n <= files.len(),
        names_differ(files),
        all_fit(contents_of(files)),
    ensures
        first_refusal(contents_of(files), n) is None,
    decreases n,
{
    if n > 0 {
        let all = contents_of(files);
        lemma_fitting_files_are_not_refused(files, n - 1);
        assert(surely_fits(all[n - 1].1));
        if has_file(all.take(n - 1), all[n - 1].0) {
            let k = choose|k: int|
                0 <= k < n - 1 && (#[trigger] all.take(n - 1)[k]).0 == all[n - 1].0;
            assert(files[k].0@ == files[n - 1].0@);
        }
    }
}

/// Packs files into an archive, in their order. Files that share a name and
/// files of four gibibytes or more are never packed, and the first such
/// file is named as the reason. Where all files have at most
/// `SURE_FILE_BYTES` bytes nothing else fails, and what can be read from the
/// archive is what was packed. Of a file between the two limits it is not
/// said whether it is packed: that turns on how well the machine compresses.
pub fn pack_cbz(files: &Vec<(String, Vec<u8>)>) -> (r: Result<Vec<u8>, String>)
    requires
        forall|i: int|
            0 <= i < files@.len() ==> encode_utf8((#[trigger] files@[i]).0@).len() <= 0xffff,
    ensures
        all_fit(contents_of(files@)) && names_differ(files@) ==> r is Ok,
        all_fit(contents_of(files@)) ==> (r matches Ok(bytes) ==> unpacked(bytes@) == contents_of(
            files@,
        )),
        r is Ok ==> names_differ(files@),
        r is Ok ==> forall|i: int|
            0 <= i < files@.len() ==> !never_fits((#[trigger] files@[i]).1@),
        lengths_decide(contents_of(files@)) ==> match r {
            Ok(_) => first_refusal(contents_of(files@), files@.len() as int) is None,
            Err(text) => first_refusal(contents_of(files@), files@.len() as int) == Some(text@),
        },
{
    let ghost all = contents_of(files@);
    let mut writer = new_archive();
    let mut i: usize = 0;
    assert(all.take(0) =~= Seq::<(Seq<char>, Seq<u8>)>::empty());
    proof {
        if all_fit(all) && names_differ(files@) {
            lemma_fitting_files_are_not_refused(files@, files@.len() as int);
        }
    }
    while i < files.len()
        invariant
            i <= files.len(),
            forall|i: int|
                0 <= i < files@.len() ==> encode_utf8((#[trigger] files@[i]).0@).len() <= 0xffff,
            all == contents_of(files@),
            all_fit(all) ==> lengths_decide(all),
            all_fit(all) && names_differ(files@) ==> first_refusal(all, all.len() as int) is None,
            is_open(writer),
            files_of(writer) == all.take(i as int),
            names_differ(files@.take(i as int)),
            forall|j: int| 0 <= j < i ==> !never_fits((#[trigger] files@[j]).1@),
            lengths_decide(all) ==> first_refusal(all, i as int) is None,
            lengths_decide(all) ==> all_fit(all.take(i as int)),
        decreases files.len() - i,
    {
        let ghost before = all.take(i as int);
        let ghost name = files@[i as int].0@;
        let ghost opened = before.push((name, Seq::<u8>::empty()));
        proof {
            assert(encode_utf8(files@[i as int].0@).len() <= 0xffff);
            assert(all[i as int] == (name, files@[i as int].1@));
            assert(opened.drop_last() =~= before);
            assert(all.take(i + 1) =~= before.push(all[i as int]));
        }
        match start_file(&mut writer, files[i].0.as_str()) {
            Ok(_) => {},
            Err(text) => {
                proof {
                    if lengths_decide(all) {
                        assert(first_refusal(all, i + 1) == Some(text@));
                        lemma_first_refusal_stays(all, i + 1, all.len() as int);
                    }
                }
                return Err(text);
            },
        }
        match write_file(&mut writer, &files[i].1) {
            Ok(_) => {},
            Err(text) => {
                proof {
                    if lengths_decide(all) {
                        assert(never_fits(all[i as int].1));
                        assert(first_refusal(all, i + 1) == Some(text@));
                        lemma_first_refusal_stays(all, i + 1, all.len() as int);
                    }
                }
                return Err(text);
            },
        }
        proof {
            let more = files@.take(i + 1);
            assert forall|a: int, b: int| 0 <= a < b < more.len() implies (#[trigger] more[a]).0@
                != (#[trigger] more[b]).0@ by {
                if b == i {
                    assert(before[a].0 == files@[a].0@);
                } else {
                    let fewer = files@.take(i as int);
                    assert(fewer[a] == more[a] && fewer[b] == more[b]);
                }
            }
            if lengths_decide(all) {
                let now = all.take(i + 1);
                assert(surely_fits(all[i as int].1));
                assert forall|j: int| 0 <= j < now.len() implies surely_fits(
                    (#[trigger] now[j]).1,
                ) by {
                    if j < i {
                        assert(now[j] == before[j]);
                    }
                }
            }
        }
        i = i + 1;
    }
    assert(all.take(i as int) =~= all);
    assert(files@.take(i as int) =~= files@);
    finish_archive(writer)
}

// ------------------------------------------------------------------
// What an export promises
// ------------------------------------------------------------------

/// A file is an image by its ending, one of seven, unless it is hidden or was
/// left behind by an archiver.
pub proof fn law_images_are_known_by_their_ending(stem: Seq<char>, ending: Seq<char>)
    requires
        !ending.contains('.'),
        !begins(stem + seq!['.'] + ending, "."@),
        !occurs(stem + seq!['.'] + ending, "__macosx"@),
        !ends(stem + seq!['.'] + ending, ".ds_store"@),
    ensures
        names_image(stem + seq!['.'] + ending) <==> ending == "jpg"@ || ending == "jpeg"@ || ending
            == "png"@ || ending == "webp"@ || ending == "gif"@ || ending == "bmp"@ || ending
            == "avif"@,
{
    lemma_ending_is_found(stem, ending);
}

/// Hidden files and what archivers leave behind are no images, whatever their
/// ending.
pub proof fn law_left_behind_files_are_no_images(name: Seq<char>)
    requires
        begins(name, "."@) || occurs(name, "__macosx"@) || ends(name, ".ds_store"@),
    ensures
        !names_image(name),
{
}

proof fn lemma_ending_is_found(stem: Seq<char>, ending: Seq<char>)
    requires
        !ending.contains('.'),
    ensures
        after_last(stem + seq!['.'] + ending, '.') == ending,
    decreases ending.len(),
{
    let s = stem + seq!['.'] + ending;
    if ending.len() == 0 {
        assert(s.last() == '.');
        assert(ending =~= Seq::<char>::empty());
    } else {
        let rest = ending.drop_last();
        assert(!rest.contains('.')) by {
            if rest.contains('.') {
                let i = choose|i: int| 0 <= i < rest.len() && rest[i] == '.';
                assert(ending[i] == '.');
            }
        }
        assert(ending[ending.len() - 1] != '.') by {
            assert(ending.contains(ending[ending.len() - 1]));
        }
        lemma_ending_is_found(stem, rest);
        assert(s.drop_last() =~= stem + seq!['.'] + rest);
        assert(s.last() == ending.last());
        assert(rest.push(ending.last()) =~= ending);
    }
}

/// The images of a folder are its files that are named like images, and no
/// directory.
pub proof fn law_images_of_a_folder_are_its_image_files(
    entries: Seq<FolderEntry>,
    n: int,
    name: Seq<char>,
)
    requires
        0 <= n <= entries.len(),
    ensures
        image_names(entries, n).contains(name) <==> exists|i: int|
            0 <= i < n && (#[trigger] entries[i]).name@ == name && !entries[i].is_dir
                && names_image(unicode_lowercase(name)),
        image_names(entries, n).len() <= n,
    decreases n,
{
    if n > 0 {
        law_images_of_a_folder_are_its_image_files(entries, n - 1, name);
        let before = image_names(entries, n - 1);
        let now = image_names(entries, n);
        let entry = entries[n - 1];
        if before.contains(name) {
            let k = choose|k: int| 0 <= k < before.len() && before[k] == name;
            assert(now[k] == name);
        }
        if !entry.is_dir && names_image(unicode_lowercase(entry.name@)) {
            assert(now[before.len() as int] == entry.name@);
            if now.contains(name) && !before.contains(name) {
                let k = choose|k: int| 0 <= k < now.len() && now[k] == name;
                if k < before.len() {
                    assert(before[k] == name);
                }
                assert(entries[n - 1].name@ == name);
            }
        }
        if exists|i: int|
            0 <= i < n && (#[trigger] entries[i]).name@ == name && !entries[i].is_dir
                && names_image(unicode_lowercase(name)) {
            let i = choose|i: int|
                0 <= i < n && (#[trigger] entries[i]).name@ == name && !entries[i].is_dir
                    && names_image(unicode_lowercase(name));
            if i < n - 1 {
                assert(entries[i].name@ == name);
                assert(before.contains(name));
            }
        }
        if before.contains(name) {
            let i = choose|i: int|
                0 <= i < n - 1 && (#[trigger] entries[i]).name@ == name && !entries[i].is_dir
                    && names_image(unicode_lowercase(name));
            assert(entries[i].name@ == name);
        }
    }
}

/// An archive holds the images of the folder, each as often, in natural
/// order; behind them what describes them, where it was found, the comic
/// before the metadata.
pub proof fn law_archives_hold_the_images_in_order(
    entries: Seq<FolderEntry>,
    found: Descriptions,
    a: int,
    b: int,
)
    requires
        entries.len() <= usize::MAX,
    ensures
        ({
            let images = image_names(entries, entries.len() as int);
            let names = archive_names(entries, found);
            let n = images.len() as int;
            &&& n <= names.len()
            &&& names.take(n).to_multiset() == images.to_multiset()
            &&& 0 <= a < b < n ==> key_le(natural_key(names[a]), natural_key(names[b]))
            &&& names.skip(n) == (if found.comic_info && found.metadata {
                seq!["ComicInfo.xml"@, "metadata.json"@]
            } else if found.comic_info {
                seq!["ComicInfo.xml"@]
            } else if found.metadata {
                seq!["metadata.json"@]
            } else {
                Seq::<Seq<char>>::empty()
            })
        }),
{
    let images = image_names(entries, entries.len() as int);
    law_images_of_a_folder_are_its_image_files(entries, entries.len() as int, Seq::<char>::empty());
    let keys = natural_keys(images);
    let order = the_order(keys);
    let n = images.len() as int;
    lemma_stable_order_exists(keys);
    assert forall|x: usize| x < images.len() implies order.contains(x) by {
        lemma_stable_order_complete(order, keys, n, x);
    }
    lemma_reordered_multiset(order, images);
    let names = archive_names(entries, found);
    let sorted = naturally_ordered(images);
    assert(sorted =~= Seq::new(images.len(), |k: int| images[order[k] as int]));
    assert(names.take(n) =~= sorted);
    assert(names.skip(n) =~= (if found.comic_info && found.metadata {
        seq!["ComicInfo.xml"@, "metadata.json"@]
    } else if found.comic_info {
        seq!["ComicInfo.xml"@]
    } else if found.metadata {
        seq!["metadata.json"@]
    } else {
        Seq::<Seq<char>>::empty()
    }));
    if 0 <= a < b < n {
        let i = order[a] as int;
        let j = order[b] as int;
        assert(order[a] < n && order[b] < n);
        assert(ranked_before(keys, i, j));
        assert(keys[i] == natural_key(images[i]));
        assert(keys[j] == natural_key(images[j]));
        assert(names[a] == sorted[a] && names[b] == sorted[b]);
    }
}

/// Pages that differ in one number alone are packed in the order of their
/// numbers, whatever zeros stand before them.
pub proof fn law_pages_are_packed_by_number(
    entries: Seq<FolderEntry>,
    found: Descriptions,
    a: int,
    b: int,
    p: Seq<char>,
    x: Seq<char>,
    y: Seq<char>,
    s: Seq<char>,
)
    requires
        entries.len() <= usize::MAX,
        0 <= a < image_names(entries, entries.len() as int).len(),
        0 <= b < image_names(entries, entries.len() as int).len(),
        archive_names(entries, found)[a] == p + x + s,
        archive_names(entries, found)[b] == p + y + s,
        p.len() > 0 ==> !('0' <= p.last() <= '9'),
        s.len() > 0 ==> !('0' <= s[0] <= '9'),
        0 < x.len() <= u64::MAX,
        0 < y.len() <= u64::MAX,
        forall|i: int| 0 <= i < x.len() ==> '0' <= #[trigger] x[i] <= '9',
        forall|i: int| 0 <= i < y.len() ==> '0' <= #[trigger] y[i] <= '9',
        digits_value(x) < digits_value(y),
    ensures
        a < b,
{
    law_numbers_in_names_count_by_value(p, x, y, s);
    law_numbers_in_names_count_by_value(p, y, x, s);
    if b < a {
        law_archives_hold_the_images_in_order(entries, found, b, a);
    }
}

/// Of the files of an archive the first that repeats a name or is too long
/// is the reason why it is not packed; where there is none it is.
pub proof fn law_first_bad_file_is_the_reason(files: Seq<(Seq<char>, Seq<u8>)>, n: int, i: int)
    requires
        0 <= n <= files.len(),
    ensures
        first_refusal(files, n) is None <==> forall|k: int|
            0 <= k < n ==> (#[trigger] files[k]).1.len() <= 0xffff_ffff && !has_file(
                files.take(k),
                files[k].0,
            ),
        0 <= i < n && first_refusal(files, i) is None && has_file(files.take(i), files[i].0)
            ==> first_refusal(files, n) == Some(
            "invalid Zip archive: Duplicate filename: "@ + files[i].0,
        ),
        0 <= i < n && first_refusal(files, i) is None && !has_file(files.take(i), files[i].0)
            && files[i].1.len() > 0xffff_ffff ==> first_refusal(files, n) == Some(
            "Large file option has not been set"@,
        ),
    decreases n,
{
    if n > 0 {
        law_first_bad_file_is_the_reason(files, n - 1, i);
        let last = files[n - 1];
        if forall|k: int|
            0 <= k < n ==> (#[trigger] files[k]).1.len() <= 0xffff_ffff && !has_file(
                files.take(k),
                files[k].0,
            ) {
            assert(files[n - 1].1.len() <= 0xffff_ffff);
        }
        if first_refusal(files, n) is None {
            assert forall|k: int| 0 <= k < n implies (#[trigger] files[k]).1.len() <= 0xffff_ffff
                && !has_file(files.take(k), files[k].0) by {
                if k == n - 1 {
                    assert(file_refusal(files, n - 1) is None);
                }
            }
        }
    }
}

} // verus!
