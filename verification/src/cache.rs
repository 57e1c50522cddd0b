//! The disk caches: where they are, what their files are called and hold,
//! how large they may grow and how they are emptied.

use vstd::prelude::*;
use vstd::string::*;
use vstd::utf8::{decode_utf8, encode_utf8, encode_utf8_decode_utf8};

use crate::digest::{sha256, sha256_hex, short_hash, stable_hash, stable_name, text_hash};
use crate::number::{
    all_hex, is_digit, lemma_decimal_digits, dec_u64, decimal, hex_of_bytes, hexadecimal, law_little_endian_round_trip,
    lemma_decimal_injective, lemma_hex_injective, lemma_little_endian_len, little_endian,
    little_endian_value, push_le, read_le_u32,
};
use crate::order::{keys_of, stable_order, stable_order_of, the_order, Token};
use crate::text::{
    begins, cat2, cat4, chars_of, law_first_separator_parts_the_text, same, starts_with, texts,
};
use crate::tree::{
    contents_size, dir_size, entries_of, entries_size, find_entry, has_entry, is_removable,
    named_at, newest_mtime, node_newest, node_size, own_size, remove_dir_contents,
    removable_names, size_by_itself, ClearPlan, Node,
};

verus! {

/// The most bytes that the whole downloads may take: 2 GiB.
pub const RAW_CACHE_LIMIT_BYTES: u64 = 2_147_483_648;

/// The most bytes of pixels that a stored remote cover may have: 16 MiB.
pub const REMOTE_COVER_MAX_BYTES: usize = 16_777_216;

// ------------------------------------------------------------------
// Where the caches are
// ------------------------------------------------------------------

/// The root of the data, where the user has chosen one.
pub struct CacheRoots {
    pub custom: Option<String>,
}

impl CacheRoots {
    /// No root has been chosen.
    pub fn new() -> (r: CacheRoots)
        ensures
            r.custom is None,
    {
        CacheRoots { custom: None }
    }

    /// Chooses a root; an empty text goes back to the default.
    pub fn set_custom_cache_root(&mut self, path: &str)
        ensures
            match final(self).custom {
                Some(chosen) => path@.len() > 0 && chosen@ == path@,
                None => path@.len() == 0,
            },
    {
        self.custom = if path.is_empty() {
            None
        } else {
            Some(path.to_owned())
        };
    }

    /// The names that lead to the root of the data, from its first directory
    /// on: the chosen one, else `RCH` in the directory for application data,
    /// else `RCH` in the directory for temporary files.
    pub fn cache_root(&self, app_data: Option<String>, temp_dir: String) -> (r: Vec<String>)
        ensures
            texts(r@) == self.root_parts(app_data, temp_dir),
    {
        let mut parts: Vec<String> = Vec::new();
        match &self.custom {
            Some(chosen) => {
                if !chosen.as_str().is_empty() {
                    parts.push(chosen.clone());
                    assert(texts(parts@) =~= seq![chosen@]);
                    return parts;
                }
            },
            None => {},
        }
        match app_data {
            Some(dir) => {
                parts.push(dir);
            },
            None => {
                parts.push(temp_dir);
            },
        }
        parts.push("RCH".to_owned());
        assert(texts(parts@) =~= self.root_parts(app_data, temp_dir));
        parts
    }

    /// The names that lead to the root of the data.
    pub open spec fn root_parts(&self, app_data: Option<String>, temp_dir: String) -> Seq<
        Seq<char>,
    > {
        if self.custom is Some && (self.custom->0)@.len() > 0 {
            seq![(self.custom->0)@]
        } else {
            match app_data {
                Some(dir) => seq![dir@, "RCH"@],
                None => seq![temp_dir@, "RCH"@],
            }
        }
    }
}

/// The caches.
#[derive(Debug, Clone, Copy, PartialEq, Eq, Structural)]
pub enum CacheDir {
    /// Pages that have been read.
    Page,
    /// Books that have been downloaded as a whole.
    Raw,
    /// Covers.
    Cover,
    /// Pages that have been enlarged.
    Ai,
    /// Intermediate files of enlarging.
    Temp,
    /// Page tables of MOBI files.
    MobiTable,
}

impl CacheDir {
    /// The name of the cache.
    pub open spec fn name(self) -> Seq<char> {
        match self {
            CacheDir::Page => "page"@,
            CacheDir::Raw => "raw"@,
            CacheDir::Cover => "cover"@,
            CacheDir::Ai => "ai"@,
            CacheDir::Temp => "temp"@,
            CacheDir::MobiTable => "mobi_table"@,
        }
    }

    /// The name of the cache.
    pub fn as_str(&self) -> (r: &'static str)
        ensures
            r@ == self.name(),
    {
        match self {
            CacheDir::Page => "page",
            CacheDir::Raw => "raw",
            CacheDir::Cover => "cover",
            CacheDir::Ai => "ai",
            CacheDir::Temp => "temp",
            CacheDir::MobiTable => "mobi_table",
        }
    }

    /// Whether the cache is in the directory for temporary files, not below
    /// the root of the data.
    pub open spec fn is_outside_root(self) -> bool {
        self is Temp
    }

    /// The names that lead to the cache, below the root of the data or below
    /// the directory for temporary files.
    pub open spec fn below(self) -> Seq<Seq<char>> {
        if self.is_outside_root() {
            seq!["RCH"@, "temp"@]
        } else {
            seq!["cache"@, self.name()]
        }
    }

    /// Whether the cache is outside the root, and the names that lead to it.
    pub fn path(&self) -> (r: (bool, Vec<String>))
        ensures
            r.0 == self.is_outside_root(),
            texts(r.1@) == self.below(),
    {
        let mut parts: Vec<String> = Vec::new();
        if *self == CacheDir::Temp {
            parts.push("RCH".to_owned());
            parts.push("temp".to_owned());
            assert(texts(parts@) =~= self.below());
            (true, parts)
        } else {
            parts.push("cache".to_owned());
            parts.push(self.as_str().to_owned());
            assert(texts(parts@) =~= self.below());
            (false, parts)
        }
    }
}

/// All caches, in the order in which their directories are made.
pub open spec fn all_caches() -> Seq<CacheDir> {
    seq![
        CacheDir::Page,
        CacheDir::Raw,
        CacheDir::Cover,
        CacheDir::Ai,
        CacheDir::Temp,
        CacheDir::MobiTable,
    ]
}

/// The caches whose directories are made ahead of use: all of them.
pub fn ensure_all_cache_dirs() -> (r: Vec<CacheDir>)
    ensures
        r@ == all_caches(),
{
    let r: Vec<CacheDir> = vec![
        CacheDir::Page,
        CacheDir::Raw,
        CacheDir::Cover,
        CacheDir::Ai,
        CacheDir::Temp,
        CacheDir::MobiTable,
    ];
    assert(r@ =~= all_caches());
    r
}

/// No cache is left out.
pub proof fn law_every_cache_is_made(which: CacheDir)
    ensures
        all_caches().contains(which),
{
    let all = all_caches();
    assert(all[0] == CacheDir::Page && all[1] == CacheDir::Raw && all[2] == CacheDir::Cover
        && all[3] == CacheDir::Ai && all[4] == CacheDir::Temp && all[5] == CacheDir::MobiTable);
}

/// Different caches have different names, and so different directories.
pub proof fn law_cache_names_differ(a: CacheDir, b: CacheDir)
    requires
        a != b,
    ensures
        a.name() != b.name(),
        a.below() != b.below(),
{
    reveal_strlit("page");
    reveal_strlit("raw");
    reveal_strlit("cover");
    reveal_strlit("ai");
    reveal_strlit("temp");
    reveal_strlit("mobi_table");
    reveal_strlit("RCH");
    reveal_strlit("cache");
    assert("page"@[0] != "temp"@[0]);
    assert("page"@.len() == 4 && "raw"@.len() == 3 && "cover"@.len() == 5 && "ai"@.len() == 2
        && "temp"@.len() == 4 && "mobi_table"@.len() == 10);
    assert("RCH"@.len() != "cache"@.len());
    assert(a.name() != b.name());
    assert(a.below()[1] == a.name());
    assert(b.below()[1] == b.name());
}

// ------------------------------------------------------------------
// Covers by path
// ------------------------------------------------------------------

/// The beginning of the names of all covers of a path.
pub open spec fn cover_prefix(path: Seq<char>) -> Seq<char> {
    hexadecimal(text_hash(path) as nat) + "_"@
}

/// The name of a cover: the hash of the path, the page, the size and the
/// text of the crop, which is empty or begins with `_`.
pub open spec fn cover_name(
    path: Seq<char>,
    page: u32,
    width: u32,
    height: u32,
    crop: Seq<char>,
) -> Seq<char> {
    cover_prefix(path) + decimal(page as nat) + "_"@ + decimal(width as nat) + "_"@ + decimal(
        height as nat,
    ) + crop + ".cover"@
}

/// The name of a cover.
pub fn cover_cache_key(path: &str, page: u32, width: u32, height: u32, crop: &str) -> (r: String)
    ensures
        r@ == cover_name(path@, page, width, height, crop@),
{
    let hash = short_hash(path);
    let p = dec_u64(page as u64);
    let w = dec_u64(width as u64);
    let h = dec_u64(height as u64);
    let mut s = cat4(hash.as_str(), "_", p.as_str(), "_");
    s.append(w.as_str());
    s.append("_");
    s.append(h.as_str());
    s.append(crop);
    s.append(".cover");
    s
}

/// Each cover of a path is found by the prefix of the path.
pub proof fn law_cover_names_have_their_prefix(
    path: Seq<char>,
    page: u32,
    width: u32,
    height: u32,
    crop: Seq<char>,
)
    ensures
        begins(cover_name(path, page, width, height, crop), cover_prefix(path)),
{
    let whole = cover_name(path, page, width, height, crop);
    assert(whole.subrange(0, cover_prefix(path).len() as int) =~= cover_prefix(path));
}

// ------------------------------------------------------------------
// What a cover file holds
// ------------------------------------------------------------------

/// The bytes of a cover file: the width and the height, four bytes each,
/// lowest first, then the pixels.
pub open spec fn cover_payload(width: u32, height: u32, rgba: Seq<u8>) -> Seq<u8> {
    little_endian(width as nat, 4) + little_endian(height as nat, 4) + rgba
}

/// The width, height and pixels of a cover file, where it is well formed.
pub open spec fn read_payload(data: Seq<u8>) -> Option<(nat, nat, Seq<u8>)> {
    if data.len() < 8 {
        None
    } else {
        let width = little_endian_value(data.subrange(0, 4));
        let height = little_endian_value(data.subrange(4, 8));
        let rgba = data.skip(8);
        if rgba.len() == width * height * 4 {
            Some((width, height, rgba))
        } else {
            None
        }
    }
}

/// The bytes of a cover file.
pub fn encode_cover(width: u32, height: u32, rgba: &Vec<u8>) -> (r: Vec<u8>)
    ensures
        r@ == cover_payload(width, height, rgba@),
{
    let mut data: Vec<u8> = Vec::new();
    push_le(&mut data, width as u64, 4);
    push_le(&mut data, height as u64, 4);
    let mut i: usize = 0;
    let ghost head = data@;
    assert(head =~= little_endian(width as nat, 4) + little_endian(height as nat, 4));
    while i < rgba.len()
        invariant
            i <= rgba.len(),
            data@ == head + rgba@.take(i as int),
        decreases rgba.len() - i,
    {
        data.push(rgba[i]);
        i = i + 1;
        assert(rgba@.take(i as int) =~= rgba@.take(i - 1).push(rgba@[i - 1]));
    }
    assert(rgba@.take(i as int) =~= rgba@);
    data
}

/// Reads a cover file back.
pub fn decode_cover(data: &Vec<u8>) -> (r: Option<(Vec<u8>, u32, u32)>)
    ensures
        match r {
            Some((rgba, width, height)) => read_payload(data@) == Some(
                (width as nat, height as nat, rgba@),
            ),
            None => read_payload(data@) is None,
        },
{
    if data.len() < 8 {
        return None;
    }
    let width: u32 = read_le_u32(data.as_slice(), 0);
    let height: u32 = read_le_u32(data.as_slice(), 4);
    let expected: u128 = pixel_bytes(width, height);
    let n: usize = data.len() - 8;
    if n as u128 != expected {
        return None;
    }
    let mut rgba: Vec<u8> = Vec::new();
    let mut i: usize = 8;
    while i < data.len()
        invariant
            8 <= i <= data.len(),
            rgba@ == data@.subrange(8, i as int),
        decreases data.len() - i,
    {
        rgba.push(data[i]);
        i = i + 1;
        assert(data@.subrange(8, i as int) =~= data@.subrange(8, i - 1).push(data@[i - 1]));
    }
    assert(rgba@ =~= data@.skip(8));
    Some((rgba, width, height))
}

fn pixel_bytes(width: u32, height: u32) -> (r: u128)
    ensures
        r == width * height * 4,
{
    assert(width * height <= 0xffff_ffff * 0xffff_ffff) by (nonlinear_arith)
        requires
            width <= 0xffff_ffff,
            height <= 0xffff_ffff,
    ;
    width as u128 * height as u128 * 4
}

/// What was written is read back.
pub proof fn law_cover_payload_round_trip(width: u32, height: u32, rgba: Seq<u8>)
    requires
        rgba.len() == width * height * 4,
    ensures
        read_payload(cover_payload(width, height, rgba)) == Some(
            (width as nat, height as nat, rgba),
        ),
{
    let data = cover_payload(width, height, rgba);
    lemma_pow_256_4();
    law_little_endian_round_trip(width as nat, 4);
    law_little_endian_round_trip(height as nat, 4);
    assert(data.subrange(0, 4) =~= little_endian(width as nat, 4));
    assert(data.subrange(4, 8) =~= little_endian(height as nat, 4));
    assert(data.skip(8) =~= rgba);
}

proof fn lemma_pow_256_4()
    ensures
        vstd::arithmetic::power::pow(256, 4) == 0x1_0000_0000,
{
    reveal_with_fuel(vstd::arithmetic::power::pow, 5);
}

// ------------------------------------------------------------------
// Covers by identity
// ------------------------------------------------------------------

/// Each part behind its length in eight bytes.
pub open spec fn framed(parts: Seq<Seq<char>>) -> Seq<u8>
    decreases parts.len(),
{
    if parts.len() == 0 {
        Seq::<u8>::empty()
    } else {
        little_endian(encode_utf8(parts[0]).len(), 8) + encode_utf8(parts[0]) + framed(
            parts.drop_first(),
        )
    }
}

/// The parts of the identity of a remote cover.
pub open spec fn cover_identity(
    source_id: Seq<char>,
    asset_id: Seq<char>,
    content_revision: Seq<char>,
    selection_revision: Seq<char>,
    profile: Seq<char>,
) -> Seq<Seq<char>> {
    seq![source_id, asset_id, content_revision, selection_revision, profile]
}

/// The name of the file of a remote cover.
pub open spec fn remote_cover_name(identity: Seq<Seq<char>>) -> Seq<char> {
    hex_of_bytes(sha256(framed(identity))) + ".cover-v2"@
}

/// Whether a name is 64 lowercase hexadecimal digits and the ending of remote
/// covers.
pub open spec fn is_remote_cover_name(name: Seq<char>) -> bool {
    &&& name.len() == 64 + ".cover-v2"@.len()
    &&& all_hex(name.take(64))
    &&& name.skip(64) == ".cover-v2"@
}

proof fn lemma_framed_push(parts: Seq<Seq<char>>, part: Seq<char>)
    ensures
        framed(parts.push(part)) == framed(parts) + little_endian(encode_utf8(part).len(), 8)
            + encode_utf8(part),
    decreases parts.len(),
{
    let all = parts.push(part);
    if parts.len() == 0 {
        assert(all.drop_first() =~= Seq::<Seq<char>>::empty());
        assert(framed(all.drop_first()) == Seq::<u8>::empty());
        assert(framed(all) =~= framed(parts) + little_endian(encode_utf8(part).len(), 8)
            + encode_utf8(part));
    } else {
        assert(all.drop_first() =~= parts.drop_first().push(part));
        lemma_framed_push(parts.drop_first(), part);
        assert(framed(all) =~= framed(parts) + little_endian(encode_utf8(part).len(), 8)
            + encode_utf8(part));
    }
}

fn push_framed(out: &mut Vec<u8>, part: &str, Ghost(parts): Ghost<Seq<Seq<char>>>)
    requires
        old(out)@ == framed(parts),
    ensures
        final(out)@ == framed(parts.push(part@)),
{
    let mut bytes = part.as_bytes_vec();
    push_le(out, bytes.len() as u64, 8);
    let ghost head = out@;
    out.append(&mut bytes);
    assert(out@ =~= head + encode_utf8(part@));
    proof {
        lemma_framed_push(parts, part@);
    }
}

/// The name of the file of a remote cover.
pub fn remote_cover_cache_filename(
    source_id: &str,
    asset_id: &str,
    content_revision: &str,
    selection_revision: &str,
    profile: &str,
) -> (r: String)
    ensures
        r@ == remote_cover_name(
            cover_identity(
                source_id@,
                asset_id@,
                content_revision@,
                selection_revision@,
                profile@,
            ),
        ),
        is_remote_cover_name(r@),
{
    let mut bytes: Vec<u8> = Vec::new();
    let ghost none = Seq::<Seq<char>>::empty();
    let ghost one = none.push(source_id@);
    let ghost two = one.push(asset_id@);
    let ghost three = two.push(content_revision@);
    let ghost four = three.push(selection_revision@);
    push_framed(&mut bytes, source_id, Ghost(none));
    push_framed(&mut bytes, asset_id, Ghost(one));
    push_framed(&mut bytes, content_revision, Ghost(two));
    push_framed(&mut bytes, selection_revision, Ghost(three));
    push_framed(&mut bytes, profile, Ghost(four));
    assert(four.push(profile@) =~= cover_identity(
        source_id@,
        asset_id@,
        content_revision@,
        selection_revision@,
        profile@,
    ));
    let hex = sha256_hex(&bytes);
    let name = cat2(hex.as_str(), ".cover-v2");
    assert(name@.take(64) =~= hex@);
    assert(name@.skip(64) =~= ".cover-v2"@);
    name
}

/// The path of the file of a remote cover, below the root of the data.
pub fn remote_cover_cache_relative_path(
    source_id: &str,
    asset_id: &str,
    content_revision: &str,
    selection_revision: &str,
    profile: &str,
) -> (r: String)
    ensures
        r@ == "cache/cover/"@ + remote_cover_name(
            cover_identity(
                source_id@,
                asset_id@,
                content_revision@,
                selection_revision@,
                profile@,
            ),
        ),
{
    let name = remote_cover_cache_filename(
        source_id,
        asset_id,
        content_revision,
        selection_revision,
        profile,
    );
    cat2("cache/cover/", name.as_str())
}

/// Two lists of as many parts are framed alike only where they are equal:
/// the covers of different sources, assets, contents, selections or profiles
/// are hashed from different bytes.
pub proof fn law_framing_is_injective(a: Seq<Seq<char>>, b: Seq<Seq<char>>)
    requires
        a.len() == b.len(),
        framed(a) == framed(b),
        forall|i: int|
            0 <= i < a.len() ==> encode_utf8(#[trigger] a[i]).len() < 0x1_0000_0000_0000_0000,
        forall|i: int|
            0 <= i < b.len() ==> encode_utf8(#[trigger] b[i]).len() < 0x1_0000_0000_0000_0000,
    ensures
        a == b,
    decreases a.len(),
{
    if a.len() > 0 {
        let ba = encode_utf8(a[0]);
        let bb = encode_utf8(b[0]);
        let fa = framed(a);
        let fb = framed(b);
        lemma_pow_256_8();
        law_little_endian_round_trip(ba.len(), 8);
        law_little_endian_round_trip(bb.len(), 8);
        assert(fa.take(8) =~= little_endian(ba.len(), 8));
        assert(fb.take(8) =~= little_endian(bb.len(), 8));
        let n = ba.len() as int;
        assert(ba.len() == bb.len());
        assert(fa.subrange(8, 8 + n) =~= ba);
        assert(fb.subrange(8, 8 + n) =~= bb);
        encode_utf8_decode_utf8(a[0]);
        encode_utf8_decode_utf8(b[0]);
        assert(a[0] == b[0]);
        assert(fa.skip(8 + n) =~= framed(a.drop_first()));
        assert(fb.skip(8 + n) =~= framed(b.drop_first()));
        law_framing_is_injective(a.drop_first(), b.drop_first());
        assert(a =~= seq![a[0]] + a.drop_first());
        assert(b =~= seq![b[0]] + b.drop_first());
    } else {
        assert(a =~= b);
    }
}

/// Remote covers that differ in any part of their identity have different
/// names, unless the digests of different bytes collide. Where one part ends
/// and the next begins is part of the identity.
pub proof fn law_cover_identities_have_their_own_names(a: Seq<Seq<char>>, b: Seq<Seq<char>>)
    requires
        a.len() == b.len(),
        forall|i: int|
            0 <= i < a.len() ==> encode_utf8(#[trigger] a[i]).len() < 0x1_0000_0000_0000_0000,
        forall|i: int|
            0 <= i < b.len() ==> encode_utf8(#[trigger] b[i]).len() < 0x1_0000_0000_0000_0000,
        a != b,
        remote_cover_name(a) == remote_cover_name(b),
    ensures
        framed(a) != framed(b),
        sha256(framed(a)) == sha256(framed(b)),
{
    if framed(a) == framed(b) {
        law_framing_is_injective(a, b);
    }
    let x = hex_of_bytes(sha256(framed(a)));
    let y = hex_of_bytes(sha256(framed(b)));
    let n = remote_cover_name(a).len() - ".cover-v2"@.len();
    assert(remote_cover_name(a).take(n) =~= x);
    assert(remote_cover_name(b).take(n) =~= y);
    lemma_hex_injective(sha256(framed(a)), sha256(framed(b)));
}

proof fn lemma_pow_256_8()
    ensures
        vstd::arithmetic::power::pow(256, 8) == 0x1_0000_0000_0000_0000,
{
    reveal_with_fuel(vstd::arithmetic::power::pow, 9);
}

/// Why a remote cover is not stored, if it is not.
pub open spec fn cover_refusal(width: u32, height: u32, len: nat) -> Option<Seq<char>> {
    if width == 0 || height == 0 || width * height * 4 > usize::MAX {
        Some("封面尺寸无效"@)
    } else if width * height * 4 > REMOTE_COVER_MAX_BYTES {
        Some("封面像素过大"@)
    } else if len != width * height * 4 {
        Some("封面像素长度与尺寸不一致"@)
    } else {
        None
    }
}

/// The bytes of the file of a remote cover, or why it is not stored: its
/// dimensions must be positive and not too large, and its pixels complete.
pub fn encode_remote_cover(width: u32, height: u32, rgba: &Vec<u8>) -> (r: Result<Vec<u8>, String>)
    ensures
        match r {
            Ok(data) => cover_refusal(width, height, rgba@.len()) is None && data@ == cover_payload(
                width,
                height,
                rgba@,
            ),
            Err(text) => cover_refusal(width, height, rgba@.len()) == Some(text@),
        },
{
    let expected: u128 = pixel_bytes(width, height);
    if width == 0 || height == 0 || expected > usize::MAX as u128 {
        return Err("封面尺寸无效".to_owned());
    }
    if expected > REMOTE_COVER_MAX_BYTES as u128 {
        return Err("封面像素过大".to_owned());
    }
    if rgba.len() as u128 != expected {
        return Err("封面像素长度与尺寸不一致".to_owned());
    }
    Ok(encode_cover(width, height, rgba))
}

/// Whether a file of this length is read as a remote cover at all.
pub fn remote_cover_length_fits(length: u64) -> (r: bool)
    ensures
        r == (8 <= length <= 8 + REMOTE_COVER_MAX_BYTES),
{
    8 <= length && length <= 16_777_224
}

/// A remote cover that was stored is read back: its file is neither too
/// short nor too long, and holds the same pixels.
pub proof fn law_stored_remote_cover_is_read_back(width: u32, height: u32, rgba: Seq<u8>)
    requires
        cover_refusal(width, height, rgba.len()) is None,
    ensures
        8 <= cover_payload(width, height, rgba).len() <= 8 + REMOTE_COVER_MAX_BYTES,
        read_payload(cover_payload(width, height, rgba)) == Some(
            (width as nat, height as nat, rgba),
        ),
{
    law_cover_payload_round_trip(width, height, rgba);
    lemma_little_endian_len(width as nat, 4);
    lemma_little_endian_len(height as nat, 4);
}

// ------------------------------------------------------------------
// Looking covers up
// ------------------------------------------------------------------

/// The cover in a file; nothing where there is no file or it is not well
/// formed.
pub open spec fn cover_in(file: Option<Seq<u8>>) -> Option<(nat, nat, Seq<u8>)> {
    match file {
        Some(data) => read_payload(data),
        None => None,
    }
}

/// The remote cover in a file, which must be neither too short nor too long.
pub open spec fn remote_cover_in(file: Option<Seq<u8>>) -> Option<(nat, nat, Seq<u8>)> {
    match file {
        Some(data) => if 8 <= data.len() <= 8 + REMOTE_COVER_MAX_BYTES {
            read_payload(data)
        } else {
            None
        },
        None => None,
    }
}

/// The bytes of a file that may be missing.
pub open spec fn bytes_in(file: Option<Vec<u8>>) -> Option<Seq<u8>> {
    match file {
        Some(data) => Some(data@),
        None => None,
    }
}

/// The pixels, width and height of a cover as numbers and bytes.
pub open spec fn picture_of(r: Option<(Vec<u8>, u32, u32)>) -> Option<(nat, nat, Seq<u8>)> {
    match r {
        Some((rgba, width, height)) => Some((width as nat, height as nat, rgba@)),
        None => None,
    }
}

/// Reads the cover of a path from its file.
pub fn cover_cache_read(file: &Option<Vec<u8>>) -> (r: Option<(Vec<u8>, u32, u32)>)
    ensures
        picture_of(r) == cover_in(bytes_in(*file)),
{
    match file {
        Some(data) => decode_cover(data),
        None => None,
    }
}

/// Reads a remote cover from its file.
pub fn remote_cover_cache_read(file: &Option<Vec<u8>>) -> (r: Option<(Vec<u8>, u32, u32)>)
    ensures
        picture_of(r) == remote_cover_in(bytes_in(*file)),
{
    match file {
        Some(data) => if remote_cover_length_fits(data.len() as u64) {
            decode_cover(data)
        } else {
            None
        },
        None => None,
    }
}

/// Whether a remote cover is there: its file exists and is not empty.
pub open spec fn is_there(length: Option<u64>) -> bool {
    length matches Some(n) && n > 0
}

/// The length of a file that may be missing.
pub open spec fn length_in(file: Option<Seq<u8>>) -> Option<u64> {
    match file {
        Some(data) => Some(data.len() as u64),
        None => None,
    }
}

/// Whether a remote cover is there, by the length of its file.
pub fn remote_cover_cache_present(length: Option<u64>) -> (r: bool)
    ensures
        r == is_there(length),
{
    match length {
        Some(n) => n > 0,
        None => false,
    }
}

// ------------------------------------------------------------------
// Publishing a file
// ------------------------------------------------------------------

/// The name of the temporary file behind which a file is written.
pub open spec fn part_name(name: Seq<char>, process: nat, number: nat) -> Seq<char> {
    "."@ + name + ".part-"@ + decimal(process) + "-"@ + decimal(number)
}

/// The name of the temporary file behind which a remote cover is written.
pub fn cover_part_name(name: &str, process: u32) -> (r: String)
    ensures
        r@ == "."@ + name@ + ".part-"@ + decimal(process as nat),
{
    let p = dec_u64(process as u64);
    cat4(".", name, ".part-", p.as_str())
}

/// A file that is written beside its target and takes the target's name only
/// when it is complete.
pub struct AtomicCacheFile {
    pub target: String,
    pub temp: String,
    pub open: bool,
    pub committed: bool,
}

/// What is done to publish a file.
#[derive(Clone, Copy, PartialEq, Eq, Structural)]
pub enum PublishStep {
    /// Write the temporary file out to the disk and close it.
    SyncTemp,
    /// Remove an incomplete file under the target's name.
    RemoveTarget,
    /// Give the temporary file the target's name.
    Rename,
}

impl AtomicCacheFile {
    /// Begins to write the file `name`; `process` and `number` make the name
    /// of the temporary file unique.
    pub fn create(name: &str, process: u32, number: u64) -> (r: AtomicCacheFile)
        ensures
            r.target@ == name@,
            r.temp@ == part_name(name@, process as nat, number as nat),
            r.open,
            !r.committed,
    {
        let p = dec_u64(process as u64);
        let n = dec_u64(number);
        let mut temp = cat4(".", name, ".part-", p.as_str());
        temp.append("-");
        temp.append(n.as_str());
        AtomicCacheFile { target: name.to_owned(), temp, open: true, committed: false }
    }

    /// The name under which readers find the bytes, if any of them do.
    pub open spec fn visible_as(&self) -> Option<Seq<char>> {
        if self.committed {
            Some(self.target@)
        } else {
            None
        }
    }

    /// What publishing the file takes; the target may have been left behind
    /// by an earlier, incomplete write.
    pub fn commit_steps(&self, target_exists: bool) -> (r: Result<Vec<PublishStep>, String>)
        ensures
            match r {
                Ok(steps) => self.open && steps@ == (if target_exists {
                    seq![PublishStep::SyncTemp, PublishStep::RemoveTarget, PublishStep::Rename]
                } else {
                    seq![PublishStep::SyncTemp, PublishStep::Rename]
                }),
                Err(text) => !self.open && text@ == "缓存临时文件已关闭"@,
            },
    {
        if !self.open {
            return Err("缓存临时文件已关闭".to_owned());
        }
        let mut steps: Vec<PublishStep> = Vec::new();
        steps.push(PublishStep::SyncTemp);
        if target_exists {
            steps.push(PublishStep::RemoveTarget);
        }
        steps.push(PublishStep::Rename);
        assert(steps@ =~= (if target_exists {
            seq![PublishStep::SyncTemp, PublishStep::RemoveTarget, PublishStep::Rename]
        } else {
            seq![PublishStep::SyncTemp, PublishStep::Rename]
        }));
        Ok(steps)
    }

    /// Takes note that the temporary file has the target's name now.
    pub fn renamed(&mut self)
        ensures
            final(self).committed,
            !final(self).open,
            final(self).target == old(self).target,
            final(self).temp == old(self).temp,
            final(self).visible_as() == Some(old(self).target@),
    {
        self.open = false;
        self.committed = true;
    }

    /// The temporary file that is removed when the writing ends: none once
    /// the file is published.
    pub fn leftover(&self) -> (r: Option<String>)
        ensures
            match r {
                Some(name) => !self.committed && name == self.temp,
                None => self.committed,
            },
    {
        if self.committed {
            None
        } else {
            Some(self.temp.clone())
        }
    }
}

/// Writers of one process that took different numbers never share a
/// temporary file, and a temporary file is never called like its target.
pub proof fn law_part_names_are_unique(name: Seq<char>, process: nat, m: nat, n: nat)
    ensures
        part_name(name, process, m) == part_name(name, process, n) ==> m == n,
        part_name(name, process, m) != name,
{
    let a = part_name(name, process, m);
    let b = part_name(name, process, n);
    let head = "."@ + name + ".part-"@ + decimal(process) + "-"@;
    let k = head.len() as int;
    assert(a.skip(k) =~= decimal(m));
    assert(b.skip(k) =~= decimal(n));
    if a == b {
        lemma_decimal_injective(m, n);
    }
    reveal_strlit(".");
    assert(a.len() >= 1 + name.len());
}

// ------------------------------------------------------------------
// Emptying the caches
// ------------------------------------------------------------------

/// The caches as they are, with what older versions left behind.
pub struct CacheSnapshot {
    pub page: Option<Node>,
    pub raw: Option<Node>,
    pub cover: Option<Node>,
    pub ai: Option<Node>,
    pub temp: Option<Node>,
    pub mobi_table: Option<Node>,
    /// The directory for downloads of older versions.
    pub download: Option<Node>,
    /// The directory that holds the caches, for what older versions put
    /// directly into it.
    pub cache: Option<Node>,
}

impl CacheSnapshot {
    /// The directory of a cache.
    pub open spec fn dir(&self, which: CacheDir) -> Option<Node> {
        match which {
            CacheDir::Page => self.page,
            CacheDir::Raw => self.raw,
            CacheDir::Cover => self.cover,
            CacheDir::Ai => self.ai,
            CacheDir::Temp => self.temp,
            CacheDir::MobiTable => self.mobi_table,
        }
    }
}

/// Whether `plan` empties the cache.
pub open spec fn empties(plan: ClearPlan, snapshot: CacheSnapshot, which: CacheDir) -> bool {
    let entries = entries_of(snapshot.dir(which));
    &&& texts(plan.remove@) == removable_names(entries, entries.len() as int)
    &&& plan.freed == contents_size(snapshot.dir(which))
}

/// Empties the page cache.
pub fn clear_page_cache(snapshot: &CacheSnapshot) -> (r: ClearPlan)
    requires
        contents_size(snapshot.page) <= u64::MAX,
    ensures
        empties(r, *snapshot, CacheDir::Page),
{
    remove_dir_contents(&snapshot.page)
}

/// Empties the cache of whole downloads.
pub fn clear_raw_cache(snapshot: &CacheSnapshot) -> (r: ClearPlan)
    requires
        contents_size(snapshot.raw) <= u64::MAX,
    ensures
        empties(r, *snapshot, CacheDir::Raw),
{
    remove_dir_contents(&snapshot.raw)
}

/// Empties the cover cache.
pub fn clear_cover_cache(snapshot: &CacheSnapshot) -> (r: ClearPlan)
    requires
        contents_size(snapshot.cover) <= u64::MAX,
    ensures
        empties(r, *snapshot, CacheDir::Cover),
{
    remove_dir_contents(&snapshot.cover)
}

/// Whether the files of a directory hold these bytes.
pub open spec fn holds_files(
    entries: Seq<(String, Node)>,
    files: Map<Seq<char>, Seq<u8>>,
) -> bool {
    forall|name: Seq<char>| #[trigger]
        files.dom().contains(name) ==> exists|i: int|
            0 <= i < entries.len() && (#[trigger] entries[i]).0@ == name && entries[i].1 is File
}

/// What the files of a directory hold once some names have been removed.
pub open spec fn files_left(
    files: Map<Seq<char>, Seq<u8>>,
    removed: Seq<Seq<char>>,
) -> Map<Seq<char>, Seq<u8>> {
    files.remove_keys(removed.to_set())
}

/// What a file holds, where there is one with this name.
pub open spec fn file_named(files: Map<Seq<char>, Seq<u8>>, name: Seq<char>) -> Option<Seq<u8>> {
    if files.dom().contains(name) {
        Some(files[name])
    } else {
        None
    }
}

proof fn lemma_files_are_removable(entries: Seq<(String, Node)>, n: int, i: int)
    requires
        0 <= i < n <= entries.len(),
        is_removable(entries[i].1),
    ensures
        removable_names(entries, n).contains(entries[i].0@),
    decreases n,
{
    let all = removable_names(entries, n);
    let fewer = removable_names(entries, n - 1);
    if i == n - 1 {
        assert(all.last() == entries[i].0@);
        assert(all[all.len() - 1] == entries[i].0@);
    } else {
        lemma_files_are_removable(entries, n - 1, i);
        let k = choose|k: int| 0 <= k < fewer.len() && fewer[k] == entries[i].0@;
        assert(all[k] == entries[i].0@);
    }
}

/// Once the covers have been cleared, and before one is written again, no
/// cover is found, whatever it is called.
pub proof fn law_cleared_covers_are_not_found(
    snapshot: CacheSnapshot,
    plan: ClearPlan,
    files: Map<Seq<char>, Seq<u8>>,
    name: Seq<char>,
)
    requires
        empties(plan, snapshot, CacheDir::Cover),
        holds_files(entries_of(snapshot.cover), files),
    ensures
        file_named(files_left(files, texts(plan.remove@)), name) is None,
        cover_in(file_named(files_left(files, texts(plan.remove@)), name)) is None,
        remote_cover_in(file_named(files_left(files, texts(plan.remove@)), name)) is None,
        !is_there(length_in(file_named(files_left(files, texts(plan.remove@)), name))),
{
    let entries = entries_of(snapshot.cover);
    let removed = texts(plan.remove@);
    if files.dom().contains(name) {
        let i = choose|i: int|
            0 <= i < entries.len() && (#[trigger] entries[i]).0@ == name && entries[i].1 is File;
        lemma_files_are_removable(entries, entries.len() as int, i);
        assert(removed.contains(name));
        assert(removed.to_set().contains(name));
    }
}

/// Empties the cache of enlarged pages.
pub fn clear_ai_cache(snapshot: &CacheSnapshot) -> (r: ClearPlan)
    requires
        contents_size(snapshot.ai) <= u64::MAX,
    ensures
        empties(r, *snapshot, CacheDir::Ai),
{
    remove_dir_contents(&snapshot.ai)
}

/// Empties the cache of page tables.
pub fn clear_mobi_table_cache(snapshot: &CacheSnapshot) -> (r: ClearPlan)
    requires
        contents_size(snapshot.mobi_table) <= u64::MAX,
    ensures
        empties(r, *snapshot, CacheDir::MobiTable),
{
    remove_dir_contents(&snapshot.mobi_table)
}

/// Empties the directory of intermediate files.
pub fn clear_temp_cache(snapshot: &CacheSnapshot) -> (r: ClearPlan)
    requires
        contents_size(snapshot.temp) <= u64::MAX,
    ensures
        empties(r, *snapshot, CacheDir::Temp),
{
    remove_dir_contents(&snapshot.temp)
}

/// Whether `c` is a hexadecimal digit of either case.
pub open spec fn is_hex_digit(c: char) -> bool {
    '0' <= c <= '9' || 'a' <= c <= 'f' || 'A' <= c <= 'F'
}

/// Whether a directory is one of the page directories of older versions: its
/// name is sixteen hexadecimal digits.
pub open spec fn is_legacy_name(name: Seq<char>) -> bool {
    name.len() == 16 && forall|i: int| 0 <= i < 16 ==> is_hex_digit(#[trigger] name[i])
}

/// Whether a name is sixteen hexadecimal digits.
pub fn legacy_name(name: &str) -> (r: bool)
    ensures
        r == is_legacy_name(name@),
{
    let v = chars_of(name);
    if v.len() != 16 {
        return false;
    }
    let mut i: usize = 0;
    while i < 16
        invariant
            v@ == name@,
            v.len() == 16,
            i <= 16,
            forall|j: int| 0 <= j < i ==> is_hex_digit(#[trigger] name@[j]),
        decreases 16 - i,
    {
        let c = v[i];
        if !((c >= '0' && c <= '9') || (c >= 'a' && c <= 'f') || (c >= 'A' && c <= 'F')) {
            assert(!is_hex_digit(name@[i as int]));
            return false;
        }
        i = i + 1;
    }
    true
}

/// The names, among the first `n` entries, of the page directories of older
/// versions.
pub open spec fn legacy_names(entries: Seq<(String, Node)>, n: int) -> Seq<Seq<char>>
    decreases n,
{
    if n <= 0 || n > entries.len() {
        Seq::<Seq<char>>::empty()
    } else if entries[n - 1].1 is Dir && is_legacy_name(entries[n - 1].0@) {
        legacy_names(entries, n - 1).push(entries[n - 1].0@)
    } else {
        legacy_names(entries, n - 1)
    }
}

/// The bytes, in the first `n` entries, of the page directories of older
/// versions.
pub open spec fn legacy_size(entries: Seq<(String, Node)>, n: int) -> nat
    decreases n,
{
    if n <= 0 || n > entries.len() {
        0
    } else if entries[n - 1].1 is Dir && is_legacy_name(entries[n - 1].0@) {
        legacy_size(entries, n - 1) + node_size(entries[n - 1].1)
    } else {
        legacy_size(entries, n - 1)
    }
}

proof fn lemma_legacy_size_grows(entries: Seq<(String, Node)>, m: int, n: int)
    requires
        0 <= m <= n <= entries.len(),
    ensures
        legacy_size(entries, m) <= legacy_size(entries, n),
    decreases n - m,
{
    if m < n {
        lemma_legacy_size_grows(entries, m, n - 1);
    }
}

/// The bytes of a directory that may not exist.
pub open spec fn optional_size(node: Option<Node>) -> nat {
    match node {
        Some(n) => node_size(n),
        None => 0,
    }
}

/// What is removed of what older versions left behind.
pub struct LegacyPlan {
    /// Whether the directory for downloads is removed.
    pub remove_download: bool,
    /// The page directories that are removed.
    pub remove: Vec<String>,
    pub freed: u64,
}

/// The bytes of what older versions left behind.
pub open spec fn legacy_total(snapshot: CacheSnapshot) -> nat {
    let entries = entries_of(snapshot.cache);
    optional_size(snapshot.download) + legacy_size(entries, entries.len() as int)
}

/// Whether `plan` removes all that older versions left behind.
pub open spec fn removes_legacy(plan: LegacyPlan, snapshot: CacheSnapshot) -> bool {
    let entries = entries_of(snapshot.cache);
    &&& plan.remove_download == snapshot.download is Some
    &&& texts(plan.remove@) == legacy_names(entries, entries.len() as int)
    &&& plan.freed == legacy_total(snapshot)
}

/// Removes what older versions left behind.
pub fn clear_legacy_artifacts(snapshot: &CacheSnapshot) -> (r: LegacyPlan)
    requires
        legacy_total(*snapshot) <= u64::MAX,
    ensures
        removes_legacy(r, *snapshot),
{
    let mut remove_download = false;
    let mut freed: u64 = 0;
    match &snapshot.download {
        Some(node) => {
            remove_download = true;
            freed = dir_size(node);
        },
        None => {},
    }
    let ghost first = freed;
    let mut remove: Vec<String> = Vec::new();
    assert(texts(remove@) =~= Seq::<Seq<char>>::empty());
    match &snapshot.cache {
        Some(Node::Dir { entries, .. }) => {
            let mut i: usize = 0;
            while i < entries.len()
                invariant
                    i <= entries.len(),
                    first + legacy_size(entries@, entries@.len() as int) <= u64::MAX,
                    freed == first + legacy_size(entries@, i as int),
                    texts(remove@) == legacy_names(entries@, i as int),
                decreases entries.len() - i,
            {
                proof {
                    lemma_legacy_size_grows(entries@, i + 1, entries@.len() as int);
                }
                let is_dir = match &entries[i].1 {
                    Node::Dir { .. } => true,
                    _ => false,
                };
                if is_dir && legacy_name(entries[i].0.as_str()) {
                    let part: u64 = dir_size(&entries[i].1);
                    freed = freed + part;
                    let ghost before = remove@;
                    remove.push(entries[i].0.clone());
                    assert(texts(remove@) =~= texts(before).push(entries@[i as int].0@));
                }
                i = i + 1;
            }
        },
        _ => {},
    }
    LegacyPlan { remove_download, remove, freed }
}

/// The bytes that emptying all caches frees.
pub open spec fn all_caches_size(snapshot: CacheSnapshot) -> nat {
    contents_size(snapshot.page) + contents_size(snapshot.raw) + contents_size(snapshot.cover)
        + contents_size(snapshot.ai) + contents_size(snapshot.temp) + legacy_total(snapshot)
}

/// What emptying all caches removes. Page tables stay.
pub struct ClearAllPlan {
    pub page: ClearPlan,
    pub raw: ClearPlan,
    pub cover: ClearPlan,
    pub ai: ClearPlan,
    pub temp: ClearPlan,
    pub legacy: LegacyPlan,
    pub freed: u64,
}

/// Empties the caches of pages, downloads, covers, enlarged pages and
/// intermediate files, and removes what older versions left behind.
pub fn clear_all_caches(snapshot: &CacheSnapshot) -> (r: ClearAllPlan)
    requires
        all_caches_size(*snapshot) <= u64::MAX,
    ensures
        empties(r.page, *snapshot, CacheDir::Page),
        empties(r.raw, *snapshot, CacheDir::Raw),
        empties(r.cover, *snapshot, CacheDir::Cover),
        empties(r.ai, *snapshot, CacheDir::Ai),
        empties(r.temp, *snapshot, CacheDir::Temp),
        removes_legacy(r.legacy, *snapshot),
        r.freed == all_caches_size(*snapshot),
{
    let page = clear_page_cache(snapshot);
    let raw = clear_raw_cache(snapshot);
    let cover = clear_cover_cache(snapshot);
    let ai = clear_ai_cache(snapshot);
    let temp = clear_temp_cache(snapshot);
    let legacy = clear_legacy_artifacts(snapshot);
    let freed: u64 = page.freed + raw.freed + cover.freed + ai.freed + temp.freed + legacy.freed;
    ClearAllPlan { page, raw, cover, ai, temp, legacy, freed }
}

// ------------------------------------------------------------------
// Removing the caches of one book
// ------------------------------------------------------------------

/// What is removed for a book: one directory, and the bytes that this frees.
pub struct DirRemoval {
    pub name: String,
    pub freed: u64,
}

/// Whether `r` removes exactly the directory called like the hash of `key`,
/// where there is one, and frees what lies below it.
pub open spec fn removes_hashed(
    r: Option<DirRemoval>,
    entries: Seq<(String, Node)>,
    key: Seq<char>,
) -> bool {
    match r {
        Some(removal) => {
            &&& removal.name@ == stable_name(key)
            &&& exists|i: int| #[trigger]
                named_at(entries, i, stable_name(key)) && removal.freed == contents_size(
                Some(entries[i].1),
            )
        },
        None => !has_entry(entries, stable_name(key)),
    }
}

fn remove_hashed(entries: &Vec<(String, Node)>, key: &str) -> (r: Option<DirRemoval>)
    requires
        entries_size(entries@, entries@.len() as int) <= u64::MAX,
    ensures
        removes_hashed(r, entries@, key@),
{
    let name = stable_hash(key);
    match find_entry(entries, name.as_str()) {
        Some(i) => {
            proof {
                lemma_entry_size_bound(entries@, i as int, entries@.len() as int);
                assert(named_at(entries@, i as int, stable_name(key@)));
            }
            let freed: u64 = match &entries[i].1 {
                Node::Dir { .. } => dir_size(&entries[i].1),
                _ => 0,
            };
            Some(DirRemoval { name, freed })
        },
        None => None,
    }
}

proof fn lemma_entry_size_bound(entries: Seq<(String, Node)>, i: int, n: int)
    requires
        0 <= i < n <= entries.len(),
    ensures
        node_size(entries[i].1) <= entries_size(entries, n),
    decreases n,
{
    if i < n - 1 {
        lemma_entry_size_bound(entries, i, n - 1);
    }
}

/// Removes the pages of a book, by the namespace under which it was opened.
pub fn delete_page_cache_for_ns(entries: &Vec<(String, Node)>, cache_ns: &str) -> (r: Option<
    DirRemoval,
>)
    requires
        entries_size(entries@, entries@.len() as int) <= u64::MAX,
    ensures
        removes_hashed(r, entries@, cache_ns@),
{
    remove_hashed(entries, cache_ns)
}

/// Removes the download of a book, by the key under which it was stored.
pub fn delete_raw_cache_for_key(entries: &Vec<(String, Node)>, key: &str) -> (r: Option<DirRemoval>)
    requires
        entries_size(entries@, entries@.len() as int) <= u64::MAX,
    ensures
        removes_hashed(r, entries@, key@),
{
    remove_hashed(entries, key)
}

/// Whether an entry of the cover cache is a cover of the path.
pub open spec fn is_cover_of(entry: (String, Node), path: Seq<char>) -> bool {
    entry.1 is File && begins(entry.0@, cover_prefix(path))
}

/// The names, among the first `n` entries, of the covers of a path.
pub open spec fn covers_of(entries: Seq<(String, Node)>, n: int, path: Seq<char>) -> Seq<Seq<char>>
    decreases n,
{
    if n <= 0 || n > entries.len() {
        Seq::<Seq<char>>::empty()
    } else if is_cover_of(entries[n - 1], path) {
        covers_of(entries, n - 1, path).push(entries[n - 1].0@)
    } else {
        covers_of(entries, n - 1, path)
    }
}

/// The bytes, in the first `n` entries, of the covers of a path.
pub open spec fn covers_size(entries: Seq<(String, Node)>, n: int, path: Seq<char>) -> nat
    decreases n,
{
    if n <= 0 || n > entries.len() {
        0
    } else if is_cover_of(entries[n - 1], path) {
        covers_size(entries, n - 1, path) + node_size(entries[n - 1].1)
    } else {
        covers_size(entries, n - 1, path)
    }
}

proof fn lemma_covers_size_bound(entries: Seq<(String, Node)>, n: int, path: Seq<char>)
    requires
        0 <= n <= entries.len(),
    ensures
        covers_size(entries, n, path) <= entries_size(entries, n),
    decreases n,
{
    if n > 0 {
        lemma_covers_size_bound(entries, n - 1, path);
    }
}

proof fn lemma_prefix_size(entries: Seq<(String, Node)>, m: int, n: int)
    requires
        0 <= m <= n <= entries.len(),
    ensures
        entries_size(entries, m) <= entries_size(entries, n),
    decreases n - m,
{
    if m < n {
        lemma_prefix_size(entries, m, n - 1);
    }
}

/// Removes the covers of a book, whatever their page, size or crop.
pub fn delete_cover_cache_for_path(entries: &Vec<(String, Node)>, path: &str) -> (r: ClearPlan)
    requires
        entries_size(entries@, entries@.len() as int) <= u64::MAX,
    ensures
        texts(r.remove@) == covers_of(entries@, entries@.len() as int, path@),
        r.freed == covers_size(entries@, entries@.len() as int, path@),
{
    let hash = short_hash(path);
    let prefix = cat2(hash.as_str(), "_");
    let mut remove: Vec<String> = Vec::new();
    assert(texts(remove@) =~= Seq::<Seq<char>>::empty());
    let mut freed: u64 = 0;
    let mut i: usize = 0;
    while i < entries.len()
        invariant
            i <= entries.len(),
            prefix@ == cover_prefix(path@),
            entries_size(entries@, entries@.len() as int) <= u64::MAX,
            freed == covers_size(entries@, i as int, path@),
            texts(remove@) == covers_of(entries@, i as int, path@),
        decreases entries.len() - i,
    {
        proof {
            lemma_covers_size_bound(entries@, i + 1, path@);
            lemma_prefix_size(entries@, i + 1, entries@.len() as int);
        }
        match &entries[i].1 {
            Node::File { len, .. } => {
                if starts_with(entries[i].0.as_str(), prefix.as_str()) {
                    freed = freed + *len;
                    let ghost before = remove@;
                    remove.push(entries[i].0.clone());
                    assert(texts(remove@) =~= texts(before).push(entries@[i as int].0@));
                }
            },
            _ => {},
        }
        i = i + 1;
    }
    ClearPlan { remove, freed }
}

// ------------------------------------------------------------------
// Keeping the downloads within a limit
// ------------------------------------------------------------------

/// A package of the cache of whole downloads.
pub struct RawPackage {
    pub name: String,
    pub size: u64,
    /// When anything in the package was last changed.
    pub newest: u64,
}

/// `a + b`, but at most the largest 64-bit number.
pub open spec fn saturating_sum(a: int, b: int) -> int {
    if a + b > u64::MAX {
        u64::MAX as int
    } else {
        a + b
    }
}

/// The bytes of the first `n` packages, but at most the largest number.
pub open spec fn packages_size(packages: Seq<RawPackage>, n: int) -> int
    decreases n,
{
    if n <= 0 {
        0
    } else {
        saturating_sum(packages_size(packages, n - 1), packages[n - 1].size as int)
    }
}

/// The keys by which packages are ordered: their newest time.
pub open spec fn age_keys(packages: Seq<RawPackage>) -> Seq<Seq<Token>> {
    packages.map_values(|p: RawPackage| seq![(0u32, p.newest)])
}

/// The packages of the cache of whole downloads: its entries with their
/// sizes and newest times. Something that is neither a file nor a directory
/// counts with its own length.
pub fn raw_packages(entries: &Vec<(String, Node)>) -> (r: Vec<RawPackage>)
    requires
        forall|i: int|
            0 <= i < entries@.len() ==> own_size((#[trigger] entries@[i]).1) <= u64::MAX,
    ensures
        r.len() == entries.len(),
        forall|i: int|
            0 <= i < r.len() ==> (#[trigger] r@[i]).name == entries@[i].0 && r@[i].size
                == own_size(entries@[i].1) && r@[i].newest == node_newest(entries@[i].1),
{
    let mut out: Vec<RawPackage> = Vec::new();
    let mut i: usize = 0;
    while i < entries.len()
        invariant
            i <= entries.len(),
            out.len() == i,
            forall|j: int|
                0 <= j < entries@.len() ==> own_size((#[trigger] entries@[j]).1) <= u64::MAX,
            forall|j: int|
                0 <= j < i ==> (#[trigger] out@[j]).name == entries@[j].0 && out@[j].size
                    == own_size(entries@[j].1) && out@[j].newest == node_newest(entries@[j].1),
        decreases entries.len() - i,
    {
        assert(own_size(entries@[i as int].1) <= u64::MAX);
        let size: u64 = size_by_itself(&entries[i].1);
        let newest: u64 = newest_mtime(&entries[i].1);
        out.push(RawPackage { name: entries[i].0.clone(), size, newest });
        i = i + 1;
    }
    out
}

/// The removal of packages until the rest fits a limit.
pub struct RawEviction {
    pub packages: Vec<RawPackage>,
    /// The positions of the packages, the one that was untouched for longest
    /// first.
    pub order: Vec<usize>,
    pub limit: u64,
    /// The bytes that are left.
    pub total: u64,
    pub freed: u64,
    /// The number of packages that have been removed.
    pub removed: usize,
}

impl RawEviction {
    /// The order is that of the ages, and the newest package is still there.
    pub open spec fn wf(&self) -> bool {
        &&& self.order@ == the_order(age_keys(self.packages@))
        &&& stable_order_of(self.order@, age_keys(self.packages@), self.packages@.len() as int)
        &&& self.removed <= self.packages@.len()
        &&& self.packages@.len() > 0 ==> self.removed < self.packages@.len()
    }

    /// Whether another package is to be removed: the rest is over the limit,
    /// and it is more than one package.
    pub open spec fn has_victim(&self) -> bool {
        self.total > self.limit && self.removed + 1 < self.packages@.len()
    }

    /// Begins with all packages.
    pub fn enforce_raw_cache_limit(packages: Vec<RawPackage>, limit: u64) -> (r: RawEviction)
        ensures
            r.wf(),
            r.packages == packages,
            r.limit == limit,
            r.total == packages_size(packages@, packages@.len() as int),
            r.freed == 0,
            r.removed == 0,
    {
        let mut total: u64 = 0;
        let mut keys: Vec<Vec<Token>> = Vec::new();
        let mut i: usize = 0;
        while i < packages.len()
            invariant
                i <= packages.len(),
                total == packages_size(packages@, i as int),
                keys.len() == i,
                forall|j: int| 0 <= j < i ==> (#[trigger] keys@[j])@ == age_keys(packages@)[j],
            decreases packages.len() - i,
        {
            total = total.saturating_add(packages[i].size);
            let key: Vec<Token> = vec![(0u32, packages[i].newest)];
            assert(key@ =~= age_keys(packages@)[i as int]);
            keys.push(key);
            i = i + 1;
        }
        assert(keys_of(keys@) =~= age_keys(packages@));
        let order = stable_order(&keys);
        RawEviction { packages, order, limit, total, freed: 0, removed: 0 }
    }

    /// The position of the next package to be removed.
    pub fn next(&self) -> (r: Option<usize>)
        requires
            self.wf(),
        ensures
            match r {
                Some(i) => self.has_victim() && i == self.order@[self.removed as int] && i
                    < self.packages@.len(),
                None => !self.has_victim(),
            },
    {
        if self.total > self.limit && self.packages.len() > 0 && self.removed
            < self.packages.len() - 1 {
            let i: usize = self.order[self.removed];
            Some(i)
        } else {
            None
        }
    }

    /// The bytes that count for a removal: those that were freed, or the
    /// size of the package where nothing was reported.
    pub open spec fn counted_bytes(&self, reported: u64) -> u64 {
        if reported == 0 {
            self.packages@[self.order@[self.removed as int] as int].size
        } else {
            reported
        }
    }

    /// Takes note of a removal that reported these bytes.
    pub fn evicted(&mut self, reported: u64)
        requires
            old(self).wf(),
            old(self).has_victim(),
        ensures
            final(self).wf(),
            final(self).packages == old(self).packages,
            final(self).order == old(self).order,
            final(self).limit == old(self).limit,
            final(self).removed == old(self).removed + 1,
            ({
                let bytes = old(self).counted_bytes(reported);
                &&& final(self).total == (if old(self).total >= bytes {
                    old(self).total - bytes
                } else {
                    0
                })
                &&& final(self).freed == saturating_sum(old(self).freed as int, bytes as int)
            }),
    {
        let count: usize = self.packages.len();
        assert(self.removed < count);
        let i: usize = self.order[self.removed];
        assert(self.order@[self.removed as int] < count);
        let bytes: u64 = if reported == 0 {
            self.packages[i].size
        } else {
            reported
        };
        self.total = self.total.saturating_sub(bytes);
        self.freed = self.freed.saturating_add(bytes);
        self.removed = self.removed + 1;
    }
}

/// Packages go oldest first: no package that is removed is newer than one
/// that stays, and one that is newer than all others always stays.
pub proof fn law_eviction_is_oldest_first(e: RawEviction, gone: int, kept: int)
    requires
        e.wf(),
        0 <= gone < e.removed <= kept < e.packages@.len(),
    ensures
        e.packages@[e.order@[gone] as int].newest <= e.packages@[e.order@[kept] as int].newest,
        e.removed < e.packages@.len(),
{
    let keys = age_keys(e.packages@);
    let a = e.order@[gone] as int;
    let b = e.order@[kept] as int;
    assert(crate::order::ranked_before(keys, a, b));
    assert(keys[a] == seq![(0u32, e.packages@[a].newest)]);
    assert(keys[b] == seq![(0u32, e.packages@[b].newest)]);
    assert(crate::order::key_le(keys[a], keys[b]));
    if e.packages@[a].newest > e.packages@[b].newest {
        assert(keys[a][0] != keys[b][0]);
        assert(false);
    }
}

/// Nothing is removed while the packages fit the limit.
pub proof fn law_no_eviction_within_the_limit(e: RawEviction)
    requires
        e.total <= e.limit,
    ensures
        !e.has_victim(),
{
}

// ------------------------------------------------------------------
// What the caches promise
// ------------------------------------------------------------------

/// The data is kept where the user chose, else below the directory for
/// application data, else below that for temporary files; an empty choice is
/// none.
pub proof fn law_chosen_root_is_used(roots: CacheRoots, app_data: Option<String>, temp_dir: String)
    ensures
        roots.custom is Some && (roots.custom->0)@.len() > 0 ==> roots.root_parts(
            app_data,
            temp_dir,
        ) == seq![(roots.custom->0)@],
        (roots.custom is None || (roots.custom->0)@.len() == 0) && app_data is Some
            ==> roots.root_parts(app_data, temp_dir) == seq![(app_data->0)@, "RCH"@],
        (roots.custom is None || (roots.custom->0)@.len() == 0) && app_data is None
            ==> roots.root_parts(app_data, temp_dir) == seq![temp_dir@, "RCH"@],
{
}

/// Each cache has a directory of its own name below `cache`, but for the
/// intermediate files, which lie with the temporary files of the machine.
pub proof fn law_caches_have_their_directories(which: CacheDir)
    ensures
        CacheDir::Page.below() == seq!["cache"@, "page"@],
        CacheDir::Raw.below() == seq!["cache"@, "raw"@],
        CacheDir::Cover.below() == seq!["cache"@, "cover"@],
        CacheDir::Ai.below() == seq!["cache"@, "ai"@],
        CacheDir::MobiTable.below() == seq!["cache"@, "mobi_table"@],
        CacheDir::Temp.below() == seq!["RCH"@, "temp"@],
        CacheDir::Temp.name() == "temp"@,
        which.is_outside_root() <==> which == CacheDir::Temp,
{
}

proof fn lemma_decimal_holds_no_line(n: nat)
    ensures
        !decimal(n).contains('_'),
{
    lemma_decimal_digits(n);
    assert forall|i: int| 0 <= i < decimal(n).len() implies decimal(n)[i] != '_' by {
        assert(is_digit(decimal(n)[i]));
    }
}

/// The covers of one path with one crop have names that differ where the
/// page, the width or the height does.
pub proof fn law_cover_names_tell_page_and_size(
    path: Seq<char>,
    page: u32,
    width: u32,
    height: u32,
    other_page: u32,
    other_width: u32,
    other_height: u32,
    crop: Seq<char>,
)
    requires
        cover_name(path, page, width, height, crop) == cover_name(
            path,
            other_page,
            other_width,
            other_height,
            crop,
        ),
    ensures
        page == other_page,
        width == other_width,
        height == other_height,
{
    reveal_strlit("_");
    assert("_"@ =~= seq!['_']);
    let k = cover_prefix(path);
    let (p, w, h) = (decimal(page as nat), decimal(width as nat), decimal(height as nat));
    let (q, v, g) = (
        decimal(other_page as nat),
        decimal(other_width as nat),
        decimal(other_height as nat),
    );
    lemma_name_by_its_parts(k, p, w, h, crop, ".cover"@);
    lemma_name_by_its_parts(k, q, v, g, crop, ".cover"@);
    lemma_decimal_holds_no_line(page as nat);
    lemma_decimal_holds_no_line(other_page as nat);
    lemma_decimal_holds_no_line(width as nat);
    lemma_decimal_holds_no_line(other_width as nat);
    lemma_parts_are_told(k, p, w, h, q, v, g, crop + ".cover"@);
    lemma_decimal_injective(page as nat, other_page as nat);
    lemma_decimal_injective(width as nat, other_width as nat);
    lemma_decimal_injective(height as nat, other_height as nat);
}

proof fn lemma_name_by_its_parts(
    k: Seq<char>,
    p: Seq<char>,
    w: Seq<char>,
    h: Seq<char>,
    crop: Seq<char>,
    ending: Seq<char>,
)
    ensures
        k + p + seq!['_'] + w + seq!['_'] + h + crop + ending == k + (p + seq!['_'] + (w + seq!['_']
            + (h + (crop + ending)))),
{
    let u = seq!['_'];
    let t = crop + ending;
    let a = k + p + u + w + u;
    assert(a + h + crop + ending =~= a + (h + t));
    let x = h + t;
    let b = k + p + u;
    assert(b + w + u + x =~= b + (w + u + x));
    let y = w + u + x;
    assert(k + p + u + y =~= k + (p + u + y));
}

proof fn lemma_parts_are_told(
    k: Seq<char>,
    p: Seq<char>,
    w: Seq<char>,
    h: Seq<char>,
    q: Seq<char>,
    v: Seq<char>,
    g: Seq<char>,
    t: Seq<char>,
)
    requires
        k + (p + seq!['_'] + (w + seq!['_'] + (h + t))) == k + (q + seq!['_'] + (v + seq!['_'] + (g
            + t))),
        !p.contains('_'),
        !q.contains('_'),
        !w.contains('_'),
        !v.contains('_'),
    ensures
        p == q,
        w == v,
        h == g,
{
    let a = w + seq!['_'] + (h + t);
    let b = v + seq!['_'] + (g + t);
    let x = p + seq!['_'] + a;
    let y = q + seq!['_'] + b;
    let n = k.len() as int;
    assert((k + x).skip(n) =~= x);
    assert((k + y).skip(n) =~= y);
    law_first_separator_parts_the_text(p, a, q, b, '_');
    law_first_separator_parts_the_text(w, h + t, v, g + t, '_');
    assert((h + t).len() == h.len() + t.len());
    assert((g + t).len() == g.len() + t.len());
    assert((h + t).take(h.len() as int) =~= h);
    assert((g + t).take(g.len() as int) =~= g);
}

/// A cover file begins with its width and its height, four bytes each, the
/// lowest first, and goes on with the pixels alone.
pub proof fn law_cover_files_begin_with_their_size(width: u32, height: u32, rgba: Seq<u8>)
    ensures
        ({
            let file = cover_payload(width, height, rgba);
            &&& file.len() == 8 + rgba.len()
            &&& file[0] + 256 * file[1] + 65536 * file[2] + 16777216 * file[3] == width
            &&& file[4] + 256 * file[5] + 65536 * file[6] + 16777216 * file[7] == height
            &&& file.skip(8) == rgba
        }),
{
    let w = little_endian(width as nat, 4);
    let h = little_endian(height as nat, 4);
    lemma_four_bytes(width);
    lemma_four_bytes(height);
    let file = cover_payload(width, height, rgba);
    assert(file.skip(8) =~= rgba);
    assert(file[0] == w[0] && file[1] == w[1] && file[2] == w[2] && file[3] == w[3]);
    assert(file[4] == h[0] && file[5] == h[1] && file[6] == h[2] && file[7] == h[3]);
}

proof fn lemma_four_bytes(n: u32)
    ensures
        little_endian(n as nat, 4).len() == 4,
        ({
            let b = little_endian(n as nat, 4);
            b[0] + 256 * b[1] + 65536 * b[2] + 16777216 * b[3] == n
        }),
{
    reveal_with_fuel(little_endian, 5);
    let m = n as nat;
    let b = little_endian(m, 4);
    assert(b.len() == 4);
    assert(b[0] == (m % 256) as u8);
    assert(b[1] == ((m / 256) % 256) as u8);
    assert(b[2] == ((m / 256 / 256) % 256) as u8);
    assert(b[3] == ((m / 256 / 256 / 256) % 256) as u8);
}

/// A file is read as a cover exactly where it has room for its size and as
/// many bytes behind it as that takes, four for each pixel.
pub proof fn law_only_whole_covers_are_read(data: Seq<u8>)
    ensures
        read_payload(data) is Some <==> data.len() >= 8 && data.len() - 8 == 4
            * little_endian_value(data.subrange(0, 4)) * little_endian_value(data.subrange(4, 8)),
        read_payload(data) matches Some((width, height, rgba)) ==> width == little_endian_value(
            data.subrange(0, 4),
        ) && height == little_endian_value(data.subrange(4, 8)) && rgba == data.skip(8),
{
    if data.len() >= 8 {
        let w = little_endian_value(data.subrange(0, 4));
        let h = little_endian_value(data.subrange(4, 8));
        assert(w * h * 4 == 4 * w * h) by (nonlinear_arith);
    }
}

/// A remote cover is stored where it has a width, a height and at most
/// 16 MiB of pixels, all of them; else the first of these that fails is the
/// reason.
pub proof fn law_remote_covers_are_stored_whole(width: u32, height: u32, len: nat)
    ensures
        cover_refusal(width, height, len) is None <==> width > 0 && height > 0 && 4 * (width
            * height) <= 16 * 1024 * 1024 && len == 4 * (width * height),
        cover_refusal(width, height, len) == Some("封面尺寸无效"@) <==> width == 0 || height == 0
            || 4 * (width * height) > usize::MAX,
        width > 0 && height > 0 && 16 * 1024 * 1024 < 4 * (width * height) <= usize::MAX
            ==> cover_refusal(width, height, len) == Some("封面像素过大"@),
        width > 0 && height > 0 && 4 * (width * height) <= 16 * 1024 * 1024 && len != 4 * (width
            * height) ==> cover_refusal(width, height, len) == Some("封面像素长度与尺寸不一致"@),
{
    reveal_strlit("封面尺寸无效");
    reveal_strlit("封面像素过大");
    reveal_strlit("封面像素长度与尺寸不一致");
    assert("封面尺寸无效"@.len() == 6 && "封面像素过大"@.len() == 6);
    assert("封面尺寸无效"@[2] == '尺' && "封面像素过大"@[2] == '像');
    assert("封面像素长度与尺寸不一致"@.len() == 12);
    assert(width * height * 4 == 4 * (width * height));
}

/// Which files are covers, as they are looked up: a missing one is none; a
/// remote one has neither fewer bytes than its size takes nor more than the
/// most that are stored. One is there where its file is not empty.
pub proof fn law_covers_are_looked_up_in_their_file(file: Option<Seq<u8>>, length: Option<u64>)
    ensures
        file is None ==> cover_in(file) is None && remote_cover_in(file) is None,
        file matches Some(data) ==> cover_in(file) == read_payload(data),
        file matches Some(data) ==> (8 <= data.len() <= 8 + 16 * 1024 * 1024 ==> remote_cover_in(
            file,
        ) == read_payload(data)),
        file matches Some(data) ==> (data.len() < 8 || data.len() > 8 + 16 * 1024 * 1024
            ==> remote_cover_in(file) is None),
        is_there(length) <==> length is Some && length->0 != 0,
{
}

/// What older versions left behind are directories called by sixteen
/// hexadecimal digits: each of them is removed, nothing else is, and its
/// bytes are those that are freed.
pub proof fn law_old_pages_are_removed(entries: Seq<(String, Node)>, n: int, name: Seq<char>)
    requires
        0 <= n <= entries.len(),
    ensures
        legacy_names(entries, n).contains(name) <==> exists|i: int|
            0 <= i < n && (#[trigger] entries[i]).0@ == name && entries[i].1 is Dir && name.len()
                == 16 && forall|k: int|
                0 <= k < 16 ==> '0' <= #[trigger] name[k] <= '9' || 'a' <= name[k] <= 'f' || 'A'
                    <= name[k] <= 'F',
        n > 0 ==> legacy_size(entries, n) == legacy_size(entries, n - 1) + (
        if entries[n - 1].1 is Dir && is_legacy_name(entries[n - 1].0@) {
            node_size(entries[n - 1].1)
        } else {
            0
        }),
        legacy_size(entries, 0) == 0,
        legacy_size(entries, n) <= entries_size(entries, n),
    decreases n,
{
    if n > 0 {
        law_old_pages_are_removed(entries, n - 1, name);
        let before = legacy_names(entries, n - 1);
        let now = legacy_names(entries, n);
        let last = entries[n - 1];
        if before.contains(name) {
            let k = choose|k: int| 0 <= k < before.len() && before[k] == name;
            assert(now[k] == name);
        }
        if last.1 is Dir && is_legacy_name(last.0@) {
            assert(now[before.len() as int] == last.0@);
            if now.contains(name) && !before.contains(name) {
                let k = choose|k: int| 0 <= k < now.len() && now[k] == name;
                if k < before.len() {
                    assert(before[k] == name);
                }
                assert(entries[n - 1].0@ == name);
                assert forall|j: int| 0 <= j < 16 implies '0' <= #[trigger] name[j] <= '9' || 'a'
                    <= name[j] <= 'f' || 'A' <= name[j] <= 'F' by {
                    assert(is_hex_digit(name[j]));
                }
            }
        }
        if last.1 is Dir && last.0@ == name && name.len() == 16 && (forall|k: int|
            0 <= k < 16 ==> '0' <= #[trigger] name[k] <= '9' || 'a' <= name[k] <= 'f' || 'A'
                <= name[k] <= 'F') {
            assert(is_legacy_name(name));
        }
    }
}

/// The covers of a path are the files whose names begin with its prefix: all
/// of them are removed with it, and their bytes are those that are freed.
pub proof fn law_covers_of_a_path_are_removed(
    entries: Seq<(String, Node)>,
    n: int,
    path: Seq<char>,
    name: Seq<char>,
)
    requires
        0 <= n <= entries.len(),
    ensures
        covers_of(entries, n, path).contains(name) <==> exists|i: int|
            0 <= i < n && (#[trigger] entries[i]).0@ == name && entries[i].1 is File && begins(
                name,
                hexadecimal(text_hash(path) as nat) + "_"@,
            ),
        n > 0 ==> covers_size(entries, n, path) == covers_size(entries, n - 1, path) + (
        if entries[n - 1].1 is File && begins(entries[n - 1].0@, cover_prefix(path)) {
            node_size(entries[n - 1].1)
        } else {
            0
        }),
        covers_size(entries, 0, path) == 0,
        covers_size(entries, n, path) <= entries_size(entries, n),
    decreases n,
{
    if n > 0 {
        law_covers_of_a_path_are_removed(entries, n - 1, path, name);
        let before = covers_of(entries, n - 1, path);
        let now = covers_of(entries, n, path);
        let last = entries[n - 1];
        if before.contains(name) {
            let k = choose|k: int| 0 <= k < before.len() && before[k] == name;
            assert(now[k] == name);
        }
        if is_cover_of(last, path) {
            assert(now[before.len() as int] == last.0@);
            if now.contains(name) && !before.contains(name) {
                let k = choose|k: int| 0 <= k < now.len() && now[k] == name;
                if k < before.len() {
                    assert(before[k] == name);
                }
                assert(entries[n - 1].0@ == name);
            }
        }
    }
}

/// Emptying all caches frees what emptying each of them does and what older
/// versions left behind; page tables neither go nor count.
pub proof fn law_emptying_all_empties_each(
    snapshot: CacheSnapshot,
    other: CacheSnapshot,
    page: ClearPlan,
    raw: ClearPlan,
    cover: ClearPlan,
    ai: ClearPlan,
    temp: ClearPlan,
    legacy: LegacyPlan,
)
    requires
        empties(page, snapshot, CacheDir::Page),
        empties(raw, snapshot, CacheDir::Raw),
        empties(cover, snapshot, CacheDir::Cover),
        empties(ai, snapshot, CacheDir::Ai),
        empties(temp, snapshot, CacheDir::Temp),
        removes_legacy(legacy, snapshot),
        other == (CacheSnapshot { mobi_table: other.mobi_table, ..snapshot }),
    ensures
        all_caches_size(snapshot) == page.freed + raw.freed + cover.freed + ai.freed + temp.freed
            + legacy.freed,
        all_caches_size(other) == all_caches_size(snapshot),
        legacy.remove_download <==> snapshot.download is Some,
        page.freed == contents_size(snapshot.page),
        raw.freed == contents_size(snapshot.raw),
        cover.freed == contents_size(snapshot.cover),
        ai.freed == contents_size(snapshot.ai),
        temp.freed == contents_size(snapshot.temp),
{
}

/// The sum of the sizes of packages.
pub open spec fn sum_of_sizes(packages: Seq<RawPackage>, n: int) -> int
    decreases n,
{
    if n <= 0 {
        0
    } else {
        sum_of_sizes(packages, n - 1) + packages[n - 1].size
    }
}

/// The packages take as many bytes as they have together, as far as numbers
/// go; the downloads may take 2 GiB.
pub proof fn law_packages_are_summed_up(packages: Seq<RawPackage>, n: int)
    ensures
        RAW_CACHE_LIMIT_BYTES == 2 * 1024 * 1024 * 1024,
        packages_size(packages, n) == (if sum_of_sizes(packages, n) <= u64::MAX {
            sum_of_sizes(packages, n)
        } else {
            u64::MAX as int
        }),
        sum_of_sizes(packages, n) >= 0,
    decreases n,
{
    if n > 0 {
        law_packages_are_summed_up(packages, n - 1);
    }
}

/// Packages are removed while the rest is over the limit and is more than
/// one: when nothing is removed any more the rest fits, or one package is
/// left. What a removal reports counts, and the size of the package where it
/// reports nothing.
pub proof fn law_eviction_ends_within_the_limit(e: RawEviction, reported: u64)
    requires
        e.wf(),
    ensures
        e.has_victim() <==> e.total > e.limit && e.packages@.len() - e.removed > 1,
        !e.has_victim() ==> e.total <= e.limit || e.packages@.len() - e.removed <= 1,
        reported > 0 ==> e.counted_bytes(reported) == reported,
        e.counted_bytes(0) == e.packages@[e.order@[e.removed as int] as int].size,
{
}

/// What is removed for a book is the directory that is called like the hash
/// of its key, with all that lies below it, and nothing where there is none.
pub proof fn law_hashed_directories_are_removed(
    r: Option<DirRemoval>,
    entries: Seq<(String, Node)>,
    key: Seq<char>,
    i: int,
)
    requires
        removes_hashed(r, entries, key),
    ensures
        r is None ==> !(0 <= i < entries.len() && entries[i].0@ == stable_name(key) && (forall|
            j: int,
        |
            0 <= j < i ==> (#[trigger] entries[j]).0@ != stable_name(key))),
        r matches Some(removal) ==> removal.name@ == stable_name(key),
        r matches Some(removal) ==> (0 <= i < entries.len() && entries[i].0@ == stable_name(key) && (
        forall|j: int| 0 <= j < i ==> (#[trigger] entries[j]).0@ != stable_name(key))
            ==> removal.freed == contents_size(Some(entries[i].1))),
{
    let name = stable_name(key);
    if 0 <= i < entries.len() && entries[i].0@ == name && (forall|j: int|
        0 <= j < i ==> (#[trigger] entries[j]).0@ != name) {
        assert(named_at(entries, i, name));
        if r is Some {
            let k = choose|k: int| #[trigger]
                named_at(entries, k, name) && (r->0).freed == contents_size(Some(entries[k].1));
            if k < i {
                assert(entries[k].0@ != name);
            } else if i < k {
                assert(entries[i].0@ != name);
            }
        }
    }
}

/// The identity of a remote cover is its source, its asset, its contents, its
/// selection and its profile, in this order; its file is named by the digest
/// of them.
pub proof fn law_remote_covers_are_named_by_their_identity(
    source: Seq<char>,
    asset: Seq<char>,
    content: Seq<char>,
    selection: Seq<char>,
    profile: Seq<char>,
)
    ensures
        ({
            let identity = cover_identity(source, asset, content, selection, profile);
            &&& identity.len() == 5
            &&& identity[0] == source && identity[1] == asset && identity[2] == content
            &&& identity[3] == selection && identity[4] == profile
            &&& remote_cover_name(identity) == hex_of_bytes(sha256(framed(identity)))
                + ".cover-v2"@
        }),
{
}

/// A file that is being written is seen by no reader before it has been
/// given its name, and by that name from then on.
pub proof fn law_files_are_seen_when_complete(file: AtomicCacheFile)
    ensures
        file.visible_as() is Some <==> file.committed,
        file.visible_as() matches Some(name) ==> name == file.target@,
{
}

} // verus!
