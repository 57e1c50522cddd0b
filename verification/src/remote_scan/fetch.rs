//! Fetching one cover: what is read, how much of it, and which page it is.

use vstd::prelude::*;
use vstd::string::*;

use crate::number::{
    all_digits, dec_u64, decimal, is_digit, law_decimal_reads_back, parse_unsigned, unsigned_value,
};
use crate::order::{
    key_le, keys_of, natural_key, natural_key_of, natural_keys, ranked_before, stable_order,
    stable_order_of, the_order, Token,
};
use crate::remote_scan::failure::{
    cover_error_worth_escalating, cover_page_reason, cover_reason, error_code, open_reason,
    page_reason, stored_code, worth_escalating, COVER_REASON_BYTES_LIMIT, COVER_REASON_DECODE,
    COVER_REASON_PAGE_RENDER, COVER_REASON_PARTIAL_DECODE, COVER_REASON_PDF_BYTES_LIMIT,
    COVER_REASON_PIXELS, COVER_REASON_READ_BUDGET, COVER_REASON_SIZE_MISSING,
};
use crate::remote_scan::model::{RemoteAssetKind, RemoteScanError};
use crate::text::{
    begins, cat3, ends, ends_with, law_first_piece_ends_at_the_separator,
    law_trimming_finds_the_core, lower_char, lowered, pieces, same, split, stands_at, starts_with,
    stripped, texts, to_lowercase, trim, trimmed, unicode_lowercase, CharClass,
};

verus! {

pub const REMOTE_COVER_WIDTH: u32 = 340;

pub const REMOTE_COVER_HEIGHT: u32 = 480;

/// The profile of covers when the setting says nothing else.
pub const DEFAULT_COVER_PROFILE: &'static str = "340x480@1";

/// The first window of a single image: 24 MiB.
pub const COVER_HEAD_BYTES: u64 = 25_165_824;

/// The second window of a single image: 64 MiB.
pub const COVER_HEAD_MAX_BYTES: u64 = 67_108_864;

/// The largest single image that is read at all: 128 MiB.
pub const COVER_FETCH_LIMIT_BYTES: u64 = 134_217_728;

/// The largest PDF whose cover is fetched: 512 MiB.
pub const COVER_PDF_MAX_BYTES: u64 = 536_870_912;

/// The largest page that the fast path through an archive accepts: 64 MiB.
pub const COVER_FAST_PAGE_MAX_BYTES: usize = 67_108_864;

/// The most pixels that are decoded.
pub const COVER_MAX_PIXELS: u64 = 64_000_000;

/// The bytes that one cover may read from an archive: 64 MiB.
pub const COVER_READ_BUDGET_BYTES: u64 = 67_108_864;

/// The reads that one cover may make into an archive.
pub const COVER_READ_BUDGET_READS: u64 = 384;

/// The time that one cover may take, in milliseconds.
pub const COVER_READ_BUDGET_MS: u64 = 30_000;

/// How many pages behind the first are tried for a cover.
pub const COVER_PAGE_SCAN_LIMIT: u32 = 3;

/// How many pages behind the first are tried for the cover of a PDF.
pub const COVER_PDF_PAGE_SCAN_LIMIT: u32 = 1;

// ------------------------------------------------------------------
// Settings and profiles
// ------------------------------------------------------------------

/// Whether a stored setting switches something on. Only `false` and `0`,
/// bare or in quotes, switch it off.
pub open spec fn setting_is_on(value: Option<String>) -> bool {
    match value {
        Some(text) => {
            let t = trimmed(stripped(text@), CharClass::Quote);
            t != "false"@ && t != "0"@
        },
        None => true,
    }
}

/// Whether a stored setting switches something on.
pub fn parse_bool_setting(value: Option<String>) -> (r: bool)
    ensures
        r == setting_is_on(value),
{
    match value {
        Some(text) => {
            let bare = trim(text.as_str(), CharClass::White);
            let t = trim(bare.as_str(), CharClass::Quote);
            !same(t.as_str(), "false") && !same(t.as_str(), "0")
        },
        None => true,
    }
}

/// The cover profile for the stored quality setting.
pub open spec fn quality_profile(quality: Option<String>) -> Seq<char> {
    match quality {
        Some(text) => if stripped(text@) == "low"@ {
            "170x240@1"@
        } else if stripped(text@) == "high"@ {
            "510x720@1"@
        } else {
            DEFAULT_COVER_PROFILE@
        },
        None => DEFAULT_COVER_PROFILE@,
    }
}

/// The cover profile for the stored quality setting.
pub fn cover_quality_profile(quality: Option<String>) -> (r: String)
    ensures
        r@ == quality_profile(quality),
{
    match quality {
        Some(text) => {
            let t = trim(text.as_str(), CharClass::White);
            if same(t.as_str(), "low") {
                "170x240@1".to_owned()
            } else if same(t.as_str(), "high") {
                "510x720@1".to_owned()
            } else {
                DEFAULT_COVER_PROFILE.to_owned()
            }
        },
        None => DEFAULT_COVER_PROFILE.to_owned(),
    }
}

/// A positive 32-bit number, if `s` is one.
pub open spec fn positive_u32(s: Seq<char>) -> Option<nat> {
    match unsigned_value(s, u32::MAX as nat) {
        Some(n) => if n > 0 {
            Some(n)
        } else {
            None
        },
        None => None,
    }
}

/// The width and height that a profile such as `340x480@1` names, or the
/// default ones where it names none.
pub open spec fn profile_size(profile: Seq<char>) -> (nat, nat) {
    let parts = pieces(pieces(profile, '@')[0], 'x');
    if parts.len() >= 2 && positive_u32(parts[0]) is Some && positive_u32(parts[1]) is Some {
        (positive_u32(parts[0])->0, positive_u32(parts[1])->0)
    } else {
        (REMOTE_COVER_WIDTH as nat, REMOTE_COVER_HEIGHT as nat)
    }
}

/// The width and height that a profile names.
pub fn parse_cover_profile(profile: &str) -> (r: (u32, u32))
    ensures
        r.0 == profile_size(profile@).0,
        r.1 == profile_size(profile@).1,
        r.0 > 0 && r.1 > 0,
{
    let outer = split(profile, '@');
    assert(texts(outer@)[0] == outer@[0]@);
    let parts = split(outer[0].as_str(), 'x');
    if parts.len() >= 2 {
        assert(texts(parts@)[0] == parts@[0]@);
        assert(texts(parts@)[1] == parts@[1]@);
        let w = parse_unsigned(parts[0].as_str(), 0xffff_ffff);
        let h = parse_unsigned(parts[1].as_str(), 0xffff_ffff);
        match (w, h) {
            (Some(width), Some(height)) => {
                if width > 0 && height > 0 {
                    return (width as u32, height as u32);
                }
            },
            _ => {},
        }
    }
    (REMOTE_COVER_WIDTH, REMOTE_COVER_HEIGHT)
}

/// The page that a list of selection parts names: the last part of the form
/// `page:N` decides, 0 where there is none or `N` is no number.
pub open spec fn selected_page(parts: Seq<Seq<char>>) -> nat
    decreases parts.len(),
{
    if parts.len() == 0 {
        0
    } else if begins(parts.last(), "page:"@) {
        match unsigned_value(parts.last().skip(5), u32::MAX as nat) {
            Some(n) => n,
            None => 0,
        }
    } else {
        selected_page(parts.drop_last())
    }
}

/// The page that a selection names.
pub fn parse_cover_page(selection: &str) -> (r: u32)
    ensures
        r == selected_page(pieces(selection@, '|')),
{
    let parts = split(selection, '|');
    let mut page: u32 = 0;
    let mut i: usize = 0;
    while i < parts.len()
        invariant
            texts(parts@) == pieces(selection@, '|'),
            i <= parts.len(),
            page == selected_page(texts(parts@).take(i as int)),
        decreases parts.len() - i,
    {
        assert(texts(parts@).take(i + 1).drop_last() == texts(parts@).take(i as int));
        assert(texts(parts@).take(i + 1).last() == parts@[i as int]@);
        let part = parts[i].as_str();
        if starts_with(part, "page:") {
            proof {
                reveal_strlit("page:");
            }
            let n = part.unicode_len();
            let number = part.substring_char(5, n);
            assert(number@ == part@.skip(5));
            page = match parse_unsigned(number, 0xffff_ffff) {
                Some(value) => value as u32,
                None => 0,
            };
        }
        i = i + 1;
    }
    assert(texts(parts@).take(i as int) == texts(parts@));
    page
}

/// The keys under which a cover is cached: the logical path, and the
/// provider's own path where it differs.
pub fn cover_cache_paths(logical_path: &str, alias: Option<String>) -> (r: Vec<String>)
    ensures
        match alias {
            Some(a) => if a@ == logical_path@ {
                texts(r@) == seq![logical_path@]
            } else {
                texts(r@) == seq![logical_path@, a@]
            },
            None => texts(r@) == seq![logical_path@],
        },
{
    let mut paths: Vec<String> = Vec::new();
    paths.push(logical_path.to_owned());
    assert(texts(paths@) == seq![logical_path@]);
    match alias {
        Some(a) => {
            if !same(a.as_str(), logical_path) {
                paths.push(a);
                assert(texts(paths@) == seq![logical_path@, a@]);
            }
        },
        None => {},
    }
    paths
}

// ------------------------------------------------------------------
// The windows of a single image
// ------------------------------------------------------------------

/// The windows in which a single image is read: each longer than the one
/// before, the last one the whole file.
pub open spec fn window_ladder(size: u64) -> Seq<u64> {
    if size <= COVER_HEAD_BYTES {
        seq![size]
    } else if size <= COVER_HEAD_MAX_BYTES {
        seq![COVER_HEAD_BYTES, size]
    } else {
        seq![COVER_HEAD_BYTES, COVER_HEAD_MAX_BYTES, size]
    }
}

/// Whether the windows of an image of this size are read at all.
pub open spec fn fits_windows(size: u64) -> bool {
    0 < size <= COVER_FETCH_LIMIT_BYTES
}

/// The windows in which a single image is read; none for an empty file or
/// one over the limit.
pub fn cover_read_windows(read_size: u64) -> (r: Option<Vec<u64>>)
    ensures
        r is Some <==> fits_windows(read_size),
        r matches Some(windows) ==> windows@ == window_ladder(read_size),
{
    if read_size == 0 || read_size > COVER_FETCH_LIMIT_BYTES {
        return None;
    }
    let mut windows: Vec<u64> = Vec::new();
    if read_size > COVER_HEAD_BYTES {
        windows.push(COVER_HEAD_BYTES);
    }
    if read_size > COVER_HEAD_MAX_BYTES {
        windows.push(COVER_HEAD_MAX_BYTES);
    }
    windows.push(read_size);
    assert(windows@ == window_ladder(read_size));
    Some(windows)
}

/// The windows grow, none is longer than the file or the limit, and the last
/// one is the whole file.
pub proof fn law_windows_grow_to_the_whole_file(size: u64)
    requires
        fits_windows(size),
    ensures
        1 <= window_ladder(size).len() <= 3,
        window_ladder(size).last() == size,
        forall|i: int, j: int|
            0 <= i < j < window_ladder(size).len() ==> window_ladder(size)[i] < window_ladder(
                size,
            )[j],
        forall|i: int|
            0 <= i < window_ladder(size).len() ==> 0 < #[trigger] window_ladder(size)[i] <= size,
{
}

/// How far the reading of a single image through its windows has come.
pub struct WindowFetch {
    pub read_size: u64,
    pub windows: Vec<u64>,
    /// The number of windows that have been tried.
    pub tried: usize,
    /// The number of bytes at hand.
    pub buffered: u64,
}

/// What is to be done next with a single image.
pub enum WindowStep {
    /// Read this many bytes from this offset on.
    Read { offset: u64, length: u64 },
    /// Decode the bytes at hand.
    Decode,
    /// Give up.
    Stop(RemoteScanError),
}

/// What became of a read.
pub enum WindowRead {
    /// Decode the bytes at hand; `truncated` says that the file goes on.
    Decode { truncated: bool },
    /// Give up.
    Stop(RemoteScanError),
}

impl WindowFetch {
    /// Whether the machine still agrees with itself.
    pub open spec fn wf(&self) -> bool {
        self.tried <= self.windows@.len()
    }

    /// The bytes that the next window asks for beyond those at hand.
    pub open spec fn missing(&self) -> int {
        if self.windows@[self.tried as int] > self.buffered {
            self.windows@[self.tried as int] - self.buffered
        } else {
            0
        }
    }

    /// Begins with no bytes at hand.
    pub fn new(read_size: u64, windows: Vec<u64>) -> (r: WindowFetch)
        ensures
            r.wf(),
            r.read_size == read_size,
            r.windows@ == windows@,
            r.tried == 0,
            r.buffered == 0,
    {
        WindowFetch { read_size, windows, tried: 0, buffered: 0 }
    }

    /// What is to be done next. A read continues where the bytes at hand end.
    pub fn next(&self) -> (r: WindowStep)
        requires
            self.wf(),
        ensures
            match r {
                WindowStep::Read { offset, length } => self.tried < self.windows@.len() && offset
                    == self.buffered && length == self.missing() && length > 0,
                WindowStep::Decode => self.tried < self.windows@.len() && self.missing() == 0,
                WindowStep::Stop(error) => self.tried == self.windows@.len() && stored_code(error)
                    == COVER_REASON_PARTIAL_DECODE@ && worth_escalating(error),
            },
    {
        if self.tried < self.windows.len() {
            let window: u64 = self.windows[self.tried];
            if window > self.buffered {
                WindowStep::Read { offset: self.buffered, length: window - self.buffered }
            } else {
                WindowStep::Decode
            }
        } else {
            WindowStep::Stop(cover_reason(COVER_REASON_PARTIAL_DECODE))
        }
    }

    /// Whether the bytes at hand end before the file does.
    pub fn truncated(&self) -> (r: bool)
        ensures
            r == (self.buffered < self.read_size),
    {
        self.buffered < self.read_size
    }

    /// Takes note of a read that brought `got` bytes. A read without any
    /// progress ends the attempt.
    pub fn received(&mut self, got: u64) -> (r: WindowRead)
        requires
            old(self).wf(),
            old(self).buffered + got <= u64::MAX,
        ensures
            final(self).wf(),
            final(self).read_size == old(self).read_size,
            final(self).windows == old(self).windows,
            final(self).tried == old(self).tried,
            final(self).buffered == old(self).buffered + got,
            match r {
                WindowRead::Decode { truncated } => got > 0 && truncated == (final(self).buffered
                    < old(self).read_size),
                WindowRead::Stop(error) => got == 0 && stored_code(error)
                    == COVER_REASON_PARTIAL_DECODE@,
            },
    {
        if got == 0 {
            return WindowRead::Stop(cover_reason(COVER_REASON_PARTIAL_DECODE));
        }
        self.buffered = self.buffered + got;
        WindowRead::Decode { truncated: self.buffered < self.read_size }
    }

    /// Takes note of a failed decoding. The error is handed back where a
    /// larger window could not help; otherwise the next window is due.
    pub fn decode_failed(&mut self, error: RemoteScanError) -> (r: Option<RemoteScanError>)
        requires
            old(self).wf(),
            old(self).tried < old(self).windows@.len(),
        ensures
            final(self).wf(),
            final(self).read_size == old(self).read_size,
            final(self).windows == old(self).windows,
            final(self).buffered == old(self).buffered,
            worth_escalating(error) ==> r is None && final(self).tried == old(self).tried + 1,
            !worth_escalating(error) ==> r == Some(error) && final(self).tried == old(self).tried,
    {
        let count: usize = self.windows.len();
        assert(self.tried < count);
        if cover_error_worth_escalating(&error) {
            self.tried = self.tried + 1;
            None
        } else {
            Some(error)
        }
    }
}

// ------------------------------------------------------------------
// Reading inside an archive
// ------------------------------------------------------------------

/// The budget of reads into one archive.
pub struct ReadBudget {
    /// The length of the archive.
    pub length: u64,
    /// The most bytes that may be read.
    pub limit: u64,
    /// The bytes that have been read.
    pub used: u64,
    /// The reads that have been made.
    pub calls: u64,
}

/// What is to be done with a request for bytes of an archive.
pub enum ReadStep {
    /// Nothing stands there.
    Nothing,
    /// Read this many bytes from the requested offset on.
    Fetch { length: u64 },
    /// The budget is spent; the text says how.
    Refused(String),
}

/// The text with which a read is refused.
pub open spec fn refusal_text(used: u64, limit: u64, calls: u64, elapsed_ms: u64) -> Seq<char> {
    "cover-read-budget exceeded: "@ + decimal(used as nat) + "/"@ + decimal(limit as nat)
        + " bytes, "@ + decimal(calls as nat) + "/"@ + decimal(COVER_READ_BUDGET_READS as nat)
        + " reads, "@ + decimal(elapsed_ms as nat) + "ms"@
}

impl ReadBudget {
    /// Neither the bytes nor the reads exceed the budget.
    pub open spec fn wf(&self) -> bool {
        self.used <= self.limit && self.calls <= COVER_READ_BUDGET_READS
    }

    /// The bytes that a request can be given: up to the end of the archive.
    pub open spec fn clipped(&self, offset: u64, wanted: u64) -> int {
        if self.length - offset < wanted {
            self.length - offset
        } else {
            wanted as int
        }
    }

    /// Whether the budget allows a read of `n` bytes.
    pub open spec fn allows(&self, n: int, elapsed_ms: u64) -> bool {
        self.used + n <= self.limit && self.calls < COVER_READ_BUDGET_READS && elapsed_ms
            <= COVER_READ_BUDGET_MS
    }

    /// A budget of which nothing has been spent.
    pub fn with_budget(length: u64, limit: u64) -> (r: ReadBudget)
        ensures
            r.wf(),
            r.length == length,
            r.limit == limit,
            r.used == 0,
            r.calls == 0,
    {
        ReadBudget { length, limit, used: 0, calls: 0 }
    }

    /// The budget of one cover.
    pub fn new(length: u64) -> (r: ReadBudget)
        ensures
            r.wf(),
            r.length == length,
            r.limit == COVER_READ_BUDGET_BYTES,
            r.used == 0,
            r.calls == 0,
    {
        Self::with_budget(length, COVER_READ_BUDGET_BYTES)
    }

    /// What is to be done with a request for `wanted` bytes at `offset`.
    pub fn plan(&self, offset: u64, wanted: u64, elapsed_ms: u64) -> (r: ReadStep)
        requires
            self.wf(),
        ensures
            r is Nothing <==> wanted == 0 || offset >= self.length,
            r matches ReadStep::Fetch { length } ==> length == self.clipped(offset, wanted)
                && self.allows(length as int, elapsed_ms),
            r matches ReadStep::Refused(text) ==> !self.allows(
                self.clipped(offset, wanted),
                elapsed_ms,
            ) && text@ == refusal_text(self.used, self.limit, self.calls, elapsed_ms),
    {
        if wanted == 0 || offset >= self.length {
            return ReadStep::Nothing;
        }
        let left: u64 = self.length - offset;
        let requested: u64 = if left < wanted {
            left
        } else {
            wanted
        };
        if requested > self.limit - self.used || self.calls >= COVER_READ_BUDGET_READS || elapsed_ms
            > COVER_READ_BUDGET_MS {
            let used = dec_u64(self.used);
            let limit = dec_u64(self.limit);
            let calls = dec_u64(self.calls);
            let reads = dec_u64(COVER_READ_BUDGET_READS);
            let elapsed = dec_u64(elapsed_ms);
            let mut text = cat3("cover-read-budget exceeded: ", used.as_str(), "/");
            text.append(limit.as_str());
            text.append(" bytes, ");
            text.append(calls.as_str());
            text.append("/");
            text.append(reads.as_str());
            text.append(" reads, ");
            text.append(elapsed.as_str());
            text.append("ms");
            return ReadStep::Refused(text);
        }
        ReadStep::Fetch { length: requested }
    }

    /// Takes note of a read of `requested` bytes that brought `got`. A reply
    /// longer than the request is an error and is not counted.
    pub fn record(&mut self, requested: u64, got: u64) -> (r: Result<(), String>)
        requires
            old(self).wf(),
            old(self).used + requested <= old(self).limit,
            old(self).calls < COVER_READ_BUDGET_READS,
        ensures
            final(self).wf(),
            final(self).length == old(self).length,
            final(self).limit == old(self).limit,
            match r {
                Ok(_) => got <= requested && final(self).used == old(self).used + got && final(self).calls == old(self).calls + 1,
                Err(text) => got > requested && text@
                    == "remote range response exceeded requested length"@ && *final(self) == *old(self),
            },
    {
        if got > requested {
            return Err("remote range response exceeded requested length".to_owned());
        }
        self.used = self.used + got;
        self.calls = self.calls + 1;
        Ok(())
    }
}

/// A refused read is reported as a spent budget, whatever stands around its
/// text: both when the document does not open and when a page cannot be had.
pub proof fn law_refused_read_is_reported_as_budget(
    used: u64,
    limit: u64,
    calls: u64,
    elapsed_ms: u64,
    before: Seq<char>,
    behind: Seq<char>,
)
    ensures
        ({
            let detail = before + refusal_text(used, limit, calls, elapsed_ms) + behind;
            open_reason(detail) == COVER_REASON_READ_BUDGET@ && page_reason(detail)
                == COVER_REASON_READ_BUDGET@
        }),
{
    reveal_strlit("cover-read-budget exceeded: ");
    reveal_strlit("cover-read-budget");
    let t = refusal_text(used, limit, calls, elapsed_ms);
    let detail = before + t + behind;
    let head = "cover-read-budget exceeded: "@;
    let needle = "cover-read-budget"@;
    let i = before.len() as int;
    assert forall|k: int| 0 <= k < 17 implies lowered(detail)[i + k] == needle[k] by {
        assert(detail[i + k] == t[k]);
        assert(t[k] == head[k]);
        assert(head[k] == needle[k]);
        assert(lower_char(needle[k]) == needle[k]);
    }
    assert(lowered(detail).subrange(i, i + 17) =~= needle);
    assert(stands_at(lowered(detail), needle, i));
}

// ------------------------------------------------------------------
// Pictures
// ------------------------------------------------------------------

/// The dimensions that the header of an image declares: what
/// `image::ImageReader` finds with a guessed format.
pub uninterp spec fn header_dimensions(bytes: Seq<u8>) -> Option<(u32, u32)>;

/// Calls `image::ImageReader::with_guessed_format` and `into_dimensions` on a
/// buffer in memory. The result depends on the bytes alone as long as no
/// format hooks are registered with the image crate, and nothing here
/// registers any. Which errors the crate tells apart is not kept.
#[verifier::external_body]
fn image_header(bytes: &Vec<u8>) -> (r: Option<(u32, u32)>)
    ensures
        r == header_dimensions(bytes@),
{
    match image::ImageReader::new(std::io::Cursor::new(bytes)).with_guessed_format() {
        Ok(reader) => match reader.into_dimensions() {
            Ok(size) => Some(size),
            Err(_) => None,
        },
        Err(_) => None,
    }
}

/// The dimensions of an image, from its header alone.
pub fn cover_image_dimensions(bytes: &Vec<u8>) -> (r: Result<(u32, u32), RemoteScanError>)
    ensures
        match r {
            Ok(size) => header_dimensions(bytes@) == Some(size),
            Err(error) => header_dimensions(bytes@) is None && stored_code(error)
                == COVER_REASON_DECODE@,
        },
{
    match image_header(bytes) {
        Some(size) => Ok(size),
        None => Err(cover_reason(COVER_REASON_DECODE)),
    }
}

/// Whether an image of these dimensions is decoded.
pub open spec fn pixels_fit(size: (u32, u32)) -> bool {
    size.0 * size.1 <= COVER_MAX_PIXELS
}

/// Admits an image to decoding by its dimensions: too many pixels are
/// refused before anything is allocated.
pub fn admit_dimensions(size: (u32, u32)) -> (r: Result<(u32, u32), RemoteScanError>)
    ensures
        match r {
            Ok(admitted) => admitted == size && pixels_fit(size),
            Err(error) => !pixels_fit(size) && stored_code(error) == COVER_REASON_PIXELS@,
        },
{
    assert(size.0 * size.1 <= 0xffff_ffff * 0xffff_ffff) by (nonlinear_arith)
        requires
            size.0 <= 0xffff_ffff,
            size.1 <= 0xffff_ffff,
    ;
    if size.0 as u64 * size.1 as u64 > COVER_MAX_PIXELS {
        Err(cover_reason(COVER_REASON_PIXELS))
    } else {
        Ok(size)
    }
}

/// Admits a buffer to decoding: its header must declare dimensions, and they
/// must not be too large.
pub fn admit_cover_image(bytes: &Vec<u8>) -> (r: Result<(u32, u32), RemoteScanError>)
    ensures
        match header_dimensions(bytes@) {
            Some(size) => if pixels_fit(size) {
                r == Ok::<(u32, u32), RemoteScanError>(size)
            } else {
                r is Err && stored_code(r->Err_0) == COVER_REASON_PIXELS@
            },
            None => r is Err && stored_code(r->Err_0) == COVER_REASON_DECODE@,
        },
{
    match cover_image_dimensions(bytes) {
        Ok(size) => admit_dimensions(size),
        Err(error) => Err(error),
    }
}

/// The failure of a decoder: where the buffer may be only the beginning of
/// the file, more bytes could help.
pub fn decode_failure(truncated: bool) -> (r: RemoteScanError)
    ensures
        r is MalformedResponse,
        stored_code(r) == (if truncated {
            COVER_REASON_PARTIAL_DECODE@
        } else {
            COVER_REASON_DECODE@
        }),
        worth_escalating(r) == truncated,
{
    if truncated {
        cover_reason(COVER_REASON_PARTIAL_DECODE)
    } else {
        proof {
            reveal_strlit("cover_decode_failed");
            reveal_strlit("cover_partial_decode_failed");
            assert(COVER_REASON_DECODE@.len() != COVER_REASON_PARTIAL_DECODE@.len());
        }
        cover_reason(COVER_REASON_DECODE)
    }
}

/// Whether an image is a long strip, of which the cover shows the top: more
/// than three times as high as wide.
pub open spec fn is_long_strip(width: u32, height: u32) -> bool {
    height > 3 * width
}

/// The part of a long strip that the cover shows, counted from the top, as a
/// fraction of its height; nothing for other images.
pub fn top_band(image_width: u32, image_height: u32, cover_width: u32, cover_height: u32) -> (r:
    Option<(u64, u64)>)
    ensures
        r is Some <==> image_width > 0 && image_height > 0 && cover_width > 0 && cover_height > 0
            && is_long_strip(image_width, image_height),
        r matches Some((part, whole)) ==> {
            &&& whole == cover_width * image_height
            &&& whole > 0
            &&& part == (if cover_height * image_width <= whole {
                cover_height * image_width
            } else {
                whole as int
            })
        },
{
    if image_width == 0 || image_height == 0 || cover_width == 0 || cover_height == 0 {
        return None;
    }
    if image_height as u64 <= 3 * image_width as u64 {
        return None;
    }
    assert(0 < cover_width * image_height <= 0xffff_ffff * 0xffff_ffff) by (nonlinear_arith)
        requires
            0 < cover_width <= 0xffff_ffff,
            0 < image_height <= 0xffff_ffff,
    ;
    assert(0 < cover_height * image_width <= 0xffff_ffff * 0xffff_ffff) by (nonlinear_arith)
        requires
            0 < cover_height <= 0xffff_ffff,
            0 < image_width <= 0xffff_ffff,
    ;
    let whole: u64 = cover_width as u64 * image_height as u64;
    let part: u64 = cover_height as u64 * image_width as u64;
    if part <= whole {
        Some((part, whole))
    } else {
        Some((whole, whole))
    }
}

// ------------------------------------------------------------------
// Pages of a document
// ------------------------------------------------------------------

/// How many pages behind the first are tried for this kind of document.
pub fn cover_page_scan_limit(asset_kind: &str) -> (r: u32)
    ensures
        r == (if asset_kind@ == "pdf"@ {
            COVER_PDF_PAGE_SCAN_LIMIT
        } else {
            COVER_PAGE_SCAN_LIMIT
        }),
{
    if same(asset_kind, "pdf") {
        COVER_PDF_PAGE_SCAN_LIMIT
    } else {
        COVER_PAGE_SCAN_LIMIT
    }
}

/// The search for the first page that can be decoded.
pub struct PageScan {
    pub first_page: u32,
    pub page_count: u32,
    pub scan_limit: u32,
    /// The number of pages that could not be decoded.
    pub undecodable: u32,
}

/// What is to be done next in the search.
pub enum PageStep {
    /// Render and decode this page.
    Try(u32),
    /// No page is left to be tried.
    Stop(RemoteScanError),
}

impl PageScan {
    /// Whether another page is to be tried.
    pub open spec fn has_page(&self) -> bool {
        self.undecodable <= self.scan_limit && self.first_page + self.undecodable < self.page_count
    }

    /// Begins with the wanted page.
    pub fn new(first_page: u32, page_count: u32, scan_limit: u32) -> (r: PageScan)
        ensures
            r.first_page == first_page,
            r.page_count == page_count,
            r.scan_limit == scan_limit,
            r.undecodable == 0,
    {
        PageScan { first_page, page_count, scan_limit, undecodable: 0 }
    }

    /// The next page, or the reason why there is none: no page existed, or
    /// none of those tried could be decoded.
    pub fn next(&self) -> (r: PageStep)
        ensures
            match r {
                PageStep::Try(page) => self.has_page() && page == self.first_page
                    + self.undecodable,
                PageStep::Stop(error) => !self.has_page() && stored_code(error) == (if self.undecodable
                    == 0 {
                    COVER_REASON_PAGE_RENDER@
                } else {
                    COVER_REASON_DECODE@
                }),
            },
    {
        if self.undecodable <= self.scan_limit && self.first_page < self.page_count
            && self.undecodable < self.page_count - self.first_page {
            PageStep::Try(self.first_page + self.undecodable)
        } else if self.undecodable == 0 {
            PageStep::Stop(cover_reason(COVER_REASON_PAGE_RENDER))
        } else {
            PageStep::Stop(cover_reason(COVER_REASON_DECODE))
        }
    }

    /// The error of a page that could not be rendered; it ends the search.
    pub fn render_failed(&self, detail: &str) -> (r: RemoteScanError)
        ensures
            r is MalformedResponse,
            r->MalformedResponse_0@ == page_reason(detail@),
    {
        cover_page_reason(detail)
    }

    /// Takes note of a page that could not be decoded. Only an undecodable
    /// page sends the search on; another error is handed back and ends it.
    pub fn decode_failed(&mut self, error: RemoteScanError) -> (r: Option<RemoteScanError>)
        requires
            old(self).has_page(),
        ensures
            final(self).first_page == old(self).first_page,
            final(self).page_count == old(self).page_count,
            final(self).scan_limit == old(self).scan_limit,
            stored_code(error) == COVER_REASON_DECODE@ ==> r is None && final(self).undecodable
                == old(self).undecodable + 1,
            stored_code(error) != COVER_REASON_DECODE@ ==> r == Some(error) && final(self).undecodable == old(self).undecodable,
    {
        if same(error_code(&error), COVER_REASON_DECODE) {
            self.undecodable = self.undecodable + 1;
            None
        } else {
            Some(error)
        }
    }
}

/// The search tries at most the wanted page and as many behind it as the
/// limit says, all of them pages of the document.
pub proof fn law_page_scan_is_bounded(scan: PageScan)
    requires
        scan.has_page(),
    ensures
        scan.undecodable < scan.scan_limit + 1,
        scan.first_page <= scan.first_page + scan.undecodable < scan.page_count,
{
}

// ------------------------------------------------------------------
// What is read for a cover
// ------------------------------------------------------------------

/// The image that stands for a folder: where it is, how long, and its
/// fingerprint.
pub struct CoverImage {
    pub path: String,
    pub size: Option<u64>,
    pub fingerprint: String,
}

/// What is known of a book whose cover is wanted.
pub struct CoverSourceInfo {
    pub name: String,
    pub asset_kind: RemoteAssetKind,
    pub size: Option<u64>,
    pub fingerprint: String,
    pub image_path: Option<CoverImage>,
}

/// How a cover is read.
pub struct CoverFetchPlan {
    pub read_path: String,
    pub read_size: u64,
    pub read_fingerprint: String,
    pub is_archive: bool,
    /// The windows of a single image; empty for an archive.
    pub windows: Vec<u64>,
}

/// Whether a lowercase document name is that of a PDF.
pub open spec fn names_pdf(lower: Seq<char>) -> bool {
    ends(lower, ".pdf"@)
}

/// The path, the declared size and the fingerprint of what is read, where
/// there is anything to read.
pub open spec fn read_target(
    asset_kind: RemoteAssetKind,
    path: Seq<char>,
    size: Option<u64>,
    fingerprint: Seq<char>,
    image: Option<CoverImage>,
) -> Option<(Seq<char>, Option<u64>, Seq<char>)> {
    match asset_kind {
        RemoteAssetKind::ArchiveFile => Some((path, size, fingerprint)),
        RemoteAssetKind::ImageFolder | RemoteAssetKind::ImageFile => match image {
            Some(i) => Some((i.path@, i.size, i.fingerprint@)),
            None => None,
        },
        _ => None,
    }
}

/// The code with which a cover is refused before anything is read, if any.
pub open spec fn refused_before_reading(
    asset_kind: RemoteAssetKind,
    target: Option<(Seq<char>, Option<u64>, Seq<char>)>,
    lower_name: Seq<char>,
) -> Option<Seq<char>> {
    match target {
        None => Some("unsupported"@),
        Some((_, declared, _)) => match declared {
            None => Some(COVER_REASON_SIZE_MISSING@),
            Some(size) => if size == 0 {
                Some(COVER_REASON_SIZE_MISSING@)
            } else if asset_kind is ArchiveFile {
                if names_pdf(lower_name) && size > COVER_PDF_MAX_BYTES {
                    Some(COVER_REASON_PDF_BYTES_LIMIT@)
                } else {
                    None
                }
            } else if size > COVER_FETCH_LIMIT_BYTES {
                Some(COVER_REASON_BYTES_LIMIT@)
            } else {
                None
            },
        },
    }
}

/// Decides how a cover is read, `lower_name` being the lowercase form of the
/// document's name. Nothing has been read when this refuses.
pub fn plan_cover_fetch_lowered(
    path: &str,
    lower_name: &str,
    size: Option<u64>,
    fingerprint: &str,
    asset_kind: RemoteAssetKind,
    image_path: Option<CoverImage>,
) -> (r: Result<CoverFetchPlan, RemoteScanError>)
    ensures
        ({
            let target = read_target(asset_kind, path@, size, fingerprint@, image_path);
            let refused = refused_before_reading(asset_kind, target, lower_name@);
            match r {
                Err(error) => refused == Some(stored_code(error)),
                Ok(plan) => {
                    &&& refused is None
                    &&& plan.read_path@ == (target->0).0
                    &&& Some(plan.read_size) == (target->0).1
                    &&& plan.read_fingerprint@ == (target->0).2
                    &&& plan.is_archive == (asset_kind is ArchiveFile)
                    &&& plan.is_archive ==> plan.windows@ == Seq::<u64>::empty()
                    &&& !plan.is_archive ==> plan.windows@ == window_ladder(plan.read_size)
                },
            }
        }),
{
    let is_archive = asset_kind == RemoteAssetKind::ArchiveFile;
    let (read_path, declared, read_fingerprint): (String, Option<u64>, String) = match asset_kind {
        RemoteAssetKind::ArchiveFile => (path.to_owned(), size, fingerprint.to_owned()),
        RemoteAssetKind::ImageFolder | RemoteAssetKind::ImageFile => match image_path {
            Some(image) => (image.path, image.size, image.fingerprint),
            None => return Err(RemoteScanError::Unsupported),
        },
        _ => return Err(RemoteScanError::Unsupported),
    };
    let read_size: u64 = match declared {
        Some(n) => n,
        None => return Err(cover_reason(COVER_REASON_SIZE_MISSING)),
    };
    if read_size == 0 {
        return Err(cover_reason(COVER_REASON_SIZE_MISSING));
    }
    if is_archive {
        if ends_with(lower_name, ".pdf") && read_size > COVER_PDF_MAX_BYTES {
            return Err(cover_reason(COVER_REASON_PDF_BYTES_LIMIT));
        }
        let windows: Vec<u64> = Vec::new();
        Ok(CoverFetchPlan { read_path, read_size, read_fingerprint, is_archive, windows })
    } else {
        match cover_read_windows(read_size) {
            Some(windows) => Ok(
                CoverFetchPlan { read_path, read_size, read_fingerprint, is_archive, windows },
            ),
            None => Err(cover_reason(COVER_REASON_BYTES_LIMIT)),
        }
    }
}

/// Decides how a cover is read.
pub fn plan_cover_fetch(
    path: &str,
    document_name: &str,
    size: Option<u64>,
    fingerprint: &str,
    asset_kind: RemoteAssetKind,
    image_path: Option<CoverImage>,
) -> (r: Result<CoverFetchPlan, RemoteScanError>)
    ensures
        ({
            let target = read_target(asset_kind, path@, size, fingerprint@, image_path);
            let refused = refused_before_reading(
                asset_kind,
                target,
                unicode_lowercase(document_name@),
            );
            match r {
                Err(error) => refused == Some(stored_code(error)),
                Ok(plan) => {
                    &&& refused is None
                    &&& plan.read_path@ == (target->0).0
                    &&& Some(plan.read_size) == (target->0).1
                    &&& plan.read_fingerprint@ == (target->0).2
                    &&& plan.is_archive == (asset_kind is ArchiveFile)
                    &&& plan.is_archive ==> plan.windows@ == Seq::<u64>::empty()
                    &&& !plan.is_archive ==> plan.windows@ == window_ladder(plan.read_size)
                },
            }
        }),
{
    let lower = to_lowercase(document_name);
    plan_cover_fetch_lowered(path, lower.as_str(), size, fingerprint, asset_kind, image_path)
}

/// Without ranged reads nothing is fetched: there is no way round them.
pub fn require_range_reads(range_read: bool) -> (r: Result<(), RemoteScanError>)
    ensures
        r is Ok <==> range_read,
        r matches Err(error) ==> error == RemoteScanError::RangeUnavailable,
{
    if range_read {
        Ok(())
    } else {
        Err(RemoteScanError::RangeUnavailable)
    }
}

/// How a document is opened for its cover.
pub struct DocumentRoute {
    /// `pdf` or `archive`.
    pub asset_kind: &'static str,
    /// Whether the first image is looked up in the archive's directory.
    pub fast_path: bool,
    pub scan_limit: u32,
}

/// How a document is opened for its cover, from the lowercase form of its
/// name.
pub fn document_route_lowered(lower_name: &str) -> (r: DocumentRoute)
    ensures
        r.asset_kind@ == (if names_pdf(lower_name@) {
            "pdf"@
        } else {
            "archive"@
        }),
        r.fast_path == (ends(lower_name@, ".zip"@) || ends(lower_name@, ".cbz"@)),
        r.scan_limit == (if names_pdf(lower_name@) {
            COVER_PDF_PAGE_SCAN_LIMIT
        } else {
            COVER_PAGE_SCAN_LIMIT
        }),
{
    let asset_kind: &'static str = if ends_with(lower_name, ".pdf") {
        "pdf"
    } else {
        "archive"
    };
    proof {
        reveal_strlit("pdf");
        reveal_strlit("archive");
        assert("pdf"@.len() != "archive"@.len());
    }
    let fast_path = ends_with(lower_name, ".zip") || ends_with(lower_name, ".cbz");
    DocumentRoute { asset_kind, fast_path, scan_limit: cover_page_scan_limit(asset_kind) }
}

/// How a document is opened for its cover.
pub fn document_route(document_name: &str) -> (r: DocumentRoute)
    ensures
        ({
            let lower = unicode_lowercase(document_name@);
            &&& r.asset_kind@ == (if names_pdf(lower) {
                "pdf"@
            } else {
                "archive"@
            })
            &&& r.fast_path == (ends(lower, ".zip"@) || ends(lower, ".cbz"@))
            &&& r.scan_limit == (if names_pdf(lower) {
                COVER_PDF_PAGE_SCAN_LIMIT
            } else {
                COVER_PAGE_SCAN_LIMIT
            })
        }),
{
    let lower = to_lowercase(document_name);
    document_route_lowered(lower.as_str())
}

// ------------------------------------------------------------------
// What is known of a book
// ------------------------------------------------------------------

/// What the index or the preview of a running scan holds of a book.
pub struct CoverSourceRow {
    pub name: String,
    pub asset_kind: String,
    pub size: Option<i64>,
    pub fingerprint: Option<String>,
}

/// What the index or the preview holds of one image of a folder.
pub struct FolderImageRow {
    pub path: String,
    pub name: String,
    pub size: Option<i64>,
    pub fingerprint: Option<String>,
}

/// The kinds of assets that have a cover, by their stored names.
pub open spec fn cover_kind(name: Seq<char>) -> Option<RemoteAssetKind> {
    if name == "ArchiveFile"@ {
        Some(RemoteAssetKind::ArchiveFile)
    } else if name == "ImageFolder"@ {
        Some(RemoteAssetKind::ImageFolder)
    } else if name == "ImageFile"@ {
        Some(RemoteAssetKind::ImageFile)
    } else {
        None
    }
}

/// A stored size, where it is not negative.
pub open spec fn stored_size(size: Option<i64>) -> Option<u64> {
    match size {
        Some(n) => if n >= 0 {
            Some(n as u64)
        } else {
            None
        },
        None => None,
    }
}

fn size_of_row(size: Option<i64>) -> (r: Option<u64>)
    ensures
        r == stored_size(size),
{
    match size {
        Some(n) => if n >= 0 {
            Some(n as u64)
        } else {
            None
        },
        None => None,
    }
}

/// Whether a fingerprint is there and not empty.
pub open spec fn has_fingerprint(fingerprint: Option<String>) -> bool {
    fingerprint matches Some(f) && f@.len() > 0
}

/// The names of the images of a folder.
pub open spec fn image_names(images: Seq<FolderImageRow>) -> Seq<Seq<char>> {
    images.map_values(|row: FolderImageRow| row.name@)
}

/// The position of the image that is shown as page `page`, in natural order
/// of the names.
pub open spec fn nth_image(images: Seq<FolderImageRow>, page: int) -> int {
    the_order(natural_keys(image_names(images)))[page] as int
}

/// Whether `image` is what stands for page `page` of a folder: nothing where
/// there is no such page or its fingerprint is missing.
pub open spec fn is_folder_image(
    images: Seq<FolderImageRow>,
    page: int,
    image: Option<CoverImage>,
) -> bool {
    if page < images.len() && has_fingerprint(images[nth_image(images, page)].fingerprint) {
        let row = images[nth_image(images, page)];
        image matches Some(i) && i.path@ == row.path@ && i.size == stored_size(row.size)
            && i.fingerprint@ == (row.fingerprint->0)@
    } else {
        image is None
    }
}

/// The image that stands for a page of a folder.
pub fn folder_image(images: &Vec<FolderImageRow>, page: u32) -> (r: Option<CoverImage>)
    ensures
        is_folder_image(images@, page as int, r),
{
    let mut keys: Vec<Vec<Token>> = Vec::new();
    let mut i: usize = 0;
    let ghost names = image_names(images@);
    while i < images.len()
        invariant
            names == image_names(images@),
            i <= images.len(),
            keys.len() == i,
            forall|j: int| 0 <= j < i ==> (#[trigger] keys@[j])@ == natural_keys(names)[j],
        decreases images.len() - i,
    {
        let key = natural_key_of(images[i].name.as_str());
        assert(natural_keys(names)[i as int] == key@);
        keys.push(key);
        i = i + 1;
    }
    assert(keys_of(keys@) =~= natural_keys(names));
    let order = stable_order(&keys);
    let n: usize = page as usize;
    if n >= order.len() {
        return None;
    }
    let at: usize = order[n];
    assert(order@[n as int] < images@.len());
    let row = &images[at];
    match &row.fingerprint {
        Some(fingerprint) => {
            if fingerprint.as_str().is_empty() {
                None
            } else {
                Some(
                    CoverImage {
                        path: row.path.clone(),
                        size: size_of_row(row.size),
                        fingerprint: fingerprint.clone(),
                    },
                )
            }
        },
        None => None,
    }
}

/// The row that counts: that of the preview, else that of the index.
pub open spec fn preferred_row(
    preview: Option<CoverSourceRow>,
    indexed: Option<CoverSourceRow>,
) -> Option<CoverSourceRow> {
    if preview is Some {
        preview
    } else {
        indexed
    }
}

/// The images that count: those of the preview, else those of the index.
pub open spec fn preferred_images(
    preview: Seq<FolderImageRow>,
    indexed: Seq<FolderImageRow>,
) -> Seq<FolderImageRow> {
    if preview.len() > 0 {
        preview
    } else {
        indexed
    }
}

/// What is known of a book whose cover is wanted: nothing where neither the
/// preview nor the index knows it, where it is of a kind without a cover, or
/// where its fingerprint is missing.
pub fn cover_source_info(
    preview: Option<CoverSourceRow>,
    indexed: Option<CoverSourceRow>,
    preview_images: Vec<FolderImageRow>,
    indexed_images: Vec<FolderImageRow>,
    page: u32,
) -> (r: Option<CoverSourceInfo>)
    ensures
        ({
            let row = preferred_row(preview, indexed);
            let images = preferred_images(preview_images@, indexed_images@);
            &&& r is Some <==> row is Some && cover_kind((row->0).asset_kind@) is Some
                && has_fingerprint((row->0).fingerprint)
            &&& r matches Some(info) ==> {
                &&& info.name == (row->0).name
                &&& Some(info.asset_kind) == cover_kind((row->0).asset_kind@)
                &&& info.size == stored_size((row->0).size)
                &&& Some(info.fingerprint) == (row->0).fingerprint
                &&& if info.asset_kind is ImageFolder {
                    is_folder_image(images, page as int, info.image_path)
                } else {
                    info.image_path is None
                }
            }
        }),
{
    let chosen: Option<CoverSourceRow> = match preview {
        Some(row) => Some(row),
        None => indexed,
    };
    let row = match chosen {
        Some(row) => row,
        None => return None,
    };
    let asset_kind = if same(row.asset_kind.as_str(), "ArchiveFile") {
        RemoteAssetKind::ArchiveFile
    } else if same(row.asset_kind.as_str(), "ImageFolder") {
        RemoteAssetKind::ImageFolder
    } else if same(row.asset_kind.as_str(), "ImageFile") {
        RemoteAssetKind::ImageFile
    } else {
        return None;
    };
    let fingerprint = match row.fingerprint {
        Some(f) => f,
        None => return None,
    };
    if fingerprint.as_str().is_empty() {
        return None;
    }
    let image_path = if asset_kind == RemoteAssetKind::ImageFolder {
        if preview_images.len() > 0 {
            folder_image(&preview_images, page)
        } else {
            folder_image(&indexed_images, page)
        }
    } else {
        None
    };
    Some(
        CoverSourceInfo {
            name: row.name,
            asset_kind,
            size: size_of_row(row.size),
            fingerprint,
            image_path,
        },
    )
}

// ------------------------------------------------------------------
// What settings and profiles mean
// ------------------------------------------------------------------

/// A setting switches something off by one of two words, in quotes or not,
/// whatever white space stands around; everything else leaves it on, as
/// nothing at all does.
pub proof fn law_settings_are_on_unless_switched_off(
    before: Seq<char>,
    open: Seq<char>,
    word: Seq<char>,
    close: Seq<char>,
    behind: Seq<char>,
    text: String,
)
    requires
        forall|i: int| 0 <= i < before.len() ==> CharClass::White.holds(#[trigger] before[i]),
        forall|i: int| 0 <= i < behind.len() ==> CharClass::White.holds(#[trigger] behind[i]),
        forall|i: int| 0 <= i < open.len() ==> CharClass::Quote.holds(#[trigger] open[i]),
        forall|i: int| 0 <= i < close.len() ==> CharClass::Quote.holds(#[trigger] close[i]),
        word.len() > 0,
        !CharClass::Quote.holds(word[0]) && !CharClass::Quote.holds(word.last()),
        !CharClass::White.holds(word[0]) && !CharClass::White.holds(word.last()),
        text@ == before + (open + word + close) + behind,
    ensures
        setting_is_on(None),
        setting_is_on(Some(text)) <==> word != "false"@ && word != "0"@,
{
    let core = open + word + close;
    assert(core[0] == (if open.len() > 0 {
        open[0]
    } else {
        word[0]
    }));
    assert(core.last() == (if close.len() > 0 {
        close[close.len() - 1]
    } else {
        word.last()
    }));
    law_trimming_finds_the_core(before, core, behind, CharClass::White);
    law_trimming_finds_the_core(open, word, close, CharClass::Quote);
}

proof fn lemma_digits_hold_no(s: Seq<char>, c: char)
    requires
        all_digits(s),
        !is_digit(c),
    ensures
        !s.contains(c),
{
    assert forall|i: int| 0 <= i < s.len() implies s[i] != c by {
        assert(is_digit(s[i]));
    }
}

/// A profile that names a width and a height, neither of them zero, means
/// them, whatever stands behind the sign.
pub proof fn law_profiles_name_their_size(width: nat, height: nat, scale: Seq<char>)
    ensures
        0 < width <= u32::MAX && 0 < height <= u32::MAX ==> profile_size(
            decimal(width) + seq!['x'] + decimal(height) + seq!['@'] + scale,
        ) == (width, height),
        0 < width <= u32::MAX && 0 < height <= u32::MAX ==> profile_size(
            decimal(width) + seq!['x'] + decimal(height),
        ) == (width, height),
        width == 0 || height == 0 || width > u32::MAX || height > u32::MAX ==> profile_size(
            decimal(width) + seq!['x'] + decimal(height) + seq!['@'] + scale,
        ) == (340nat, 480nat),
{
    let w = decimal(width);
    let h = decimal(height);
    law_decimal_reads_back(width, u32::MAX as nat);
    law_decimal_reads_back(height, u32::MAX as nat);
    lemma_digits_hold_no(w, 'x');
    lemma_digits_hold_no(w, '@');
    lemma_digits_hold_no(h, 'x');
    lemma_digits_hold_no(h, '@');
    let size = w + seq!['x'] + h;
    assert(!size.contains('@')) by {
        assert forall|i: int| 0 <= i < size.len() implies size[i] != '@' by {
            if i < w.len() {
                assert(w.contains(w[i]));
                assert(size[i] == w[i]);
            } else if i > w.len() {
                assert(h.contains(h[i - w.len() - 1]));
                assert(size[i] == h[i - w.len() - 1]);
            }
        }
    }
    law_first_piece_ends_at_the_separator(size, scale, '@');
    law_first_piece_ends_at_the_separator(w, h, 'x');
    law_first_piece_ends_at_the_separator(h, scale, 'x');
    let profile = size + seq!['@'] + scale;
    assert(pieces(profile, '@')[0] == size);
    let parts = pieces(size, 'x');
    assert(parts =~= seq![w, h]);
}

/// The quality of covers is low, high or, for every other word and for none,
/// in between; each has a size of its own.
pub proof fn law_qualities_have_their_sizes(text: String)
    ensures
        quality_profile(None) == "340x480@1"@,
        quality_profile(Some(text)) == (if stripped(text@) == "low"@ {
            "170x240@1"@
        } else if stripped(text@) == "high"@ {
            "510x720@1"@
        } else {
            "340x480@1"@
        }),
        profile_size("170x240@1"@) == (170nat, 240nat),
        profile_size("340x480@1"@) == (340nat, 480nat),
        profile_size("510x720@1"@) == (510nat, 720nat),
{
    reveal_strlit("low");
    reveal_strlit("high");
    reveal_strlit("170x240@1");
    reveal_strlit("340x480@1");
    reveal_strlit("510x720@1");
    reveal_with_fuel(decimal, 4);
    assert(decimal(1) =~= seq!['1']);
    assert(decimal(17) =~= seq!['1', '7']);
    assert(decimal(170) =~= seq!['1', '7', '0']);
    assert(decimal(2) =~= seq!['2']);
    assert(decimal(24) =~= seq!['2', '4']);
    assert(decimal(240) =~= seq!['2', '4', '0']);
    assert(decimal(3) =~= seq!['3']);
    assert(decimal(34) =~= seq!['3', '4']);
    assert(decimal(340) =~= seq!['3', '4', '0']);
    assert(decimal(4) =~= seq!['4']);
    assert(decimal(48) =~= seq!['4', '8']);
    assert(decimal(480) =~= seq!['4', '8', '0']);
    assert(decimal(5) =~= seq!['5']);
    assert(decimal(51) =~= seq!['5', '1']);
    assert(decimal(510) =~= seq!['5', '1', '0']);
    assert(decimal(7) =~= seq!['7']);
    assert(decimal(72) =~= seq!['7', '2']);
    assert(decimal(720) =~= seq!['7', '2', '0']);
    law_profiles_name_their_size(170, 240, seq!['1']);
    law_profiles_name_their_size(340, 480, seq!['1']);
    law_profiles_name_their_size(510, 720, seq!['1']);
    assert("170x240@1"@ =~= decimal(170) + seq!['x'] + decimal(240) + seq!['@'] + seq!['1']);
    assert("340x480@1"@ =~= decimal(340) + seq!['x'] + decimal(480) + seq!['@'] + seq!['1']);
    assert("510x720@1"@ =~= decimal(510) + seq!['x'] + decimal(720) + seq!['@'] + seq!['1']);
}

/// The last part of a selection that names a page decides, and parts that
/// name none do not count; without any it is the first page.
pub proof fn law_selections_name_their_page(parts: Seq<Seq<char>>, page: nat, other: Seq<char>)
    requires
        page <= u32::MAX,
        !begins(other, "page:"@),
    ensures
        selected_page(Seq::<Seq<char>>::empty()) == 0,
        selected_page(parts.push("page:"@ + decimal(page))) == page,
        selected_page(parts.push(other)) == selected_page(parts),
{
    reveal_strlit("page:");
    law_decimal_reads_back(page, u32::MAX as nat);
    let part = "page:"@ + decimal(page);
    assert(part.subrange(0, 5) =~= "page:"@);
    assert(part.skip(5) =~= decimal(page));
    assert(parts.push(part).last() == part);
    assert(parts.push(other).drop_last() =~= parts);
}

// ------------------------------------------------------------------
// What is read, and how much
// ------------------------------------------------------------------

/// A single image of up to 128 MiB is read: its first 24 MiB first, then its
/// first 64 MiB, then all of it, as far as it goes on.
pub proof fn law_windows_are_the_fixed_ones(size: u64)
    ensures
        fits_windows(size) <==> 1 <= size <= 128 * 1024 * 1024,
        window_ladder(size)[0] == (if size <= 24 * 1024 * 1024 {
            size as nat
        } else {
            24 * 1024 * 1024
        }),
        window_ladder(size).len() > 1 <==> size > 24 * 1024 * 1024,
        window_ladder(size).len() > 1 ==> window_ladder(size)[1] == (if size <= 64 * 1024 * 1024 {
            size as nat
        } else {
            64 * 1024 * 1024
        }),
        window_ladder(size).len() > 2 <==> size > 64 * 1024 * 1024,
        window_ladder(size).last() == size,
{
}

/// A cover may read 64 MiB of an archive in 384 reads within half a minute:
/// each read is given what it asks for up to the end of the archive, as long
/// as that leaves nothing exceeded.
pub proof fn law_archive_reads_keep_to_the_budget(
    budget: ReadBudget,
    offset: u64,
    wanted: u64,
    elapsed_ms: u64,
    n: int,
)
    requires
        offset < budget.length,
    ensures
        COVER_READ_BUDGET_BYTES == 64 * 1024 * 1024,
        budget.wf() <==> budget.used <= budget.limit && budget.calls <= 384,
        budget.allows(n, elapsed_ms) <==> budget.used + n <= budget.limit && budget.calls < 384
            && elapsed_ms <= 30 * 1000,
        budget.clipped(offset, wanted) <= wanted,
        offset + budget.clipped(offset, wanted) <= budget.length,
        budget.clipped(offset, wanted) == wanted || offset + budget.clipped(offset, wanted)
            == budget.length,
{
}

/// An image of at most 64 million pixels is decoded; one more than three
/// times as high as wide is a strip.
pub proof fn law_large_images_are_refused(width: u32, height: u32)
    ensures
        pixels_fit((width, height)) <==> width * height <= 64 * 1000 * 1000,
        is_long_strip(width, height) <==> height > width + width + width,
{
}

/// For the cover of an archive the archive itself is read; for that of images
/// the image that stands for them, and nothing where there is none; for
/// anything else nothing is.
pub proof fn law_covers_are_read_from_their_book(
    kind: RemoteAssetKind,
    path: Seq<char>,
    size: Option<u64>,
    fingerprint: Seq<char>,
    image: Option<CoverImage>,
)
    ensures
        ({
            let target = read_target(kind, path, size, fingerprint, image);
            &&& kind is ArchiveFile ==> target == Some((path, size, fingerprint))
            &&& (kind is ImageFolder || kind is ImageFile) && image is Some ==> target == Some(
                ((image->0).path@, (image->0).size, (image->0).fingerprint@),
            )
            &&& (kind is ImageFolder || kind is ImageFile) && image is None ==> target is None
            &&& kind is Directory || kind is Other ==> target is None
        }),
{
}

/// Before anything is read a cover is refused where there is nothing to read,
/// where its size is not known or zero, where it is a PDF of more than
/// 512 MiB, and where it is an image of more than 128 MiB; else it is read.
/// The name decides for archives alone.
pub proof fn law_covers_are_refused_before_reading(
    kind: RemoteAssetKind,
    target: Option<(Seq<char>, Option<u64>, Seq<char>)>,
    lower_name: Seq<char>,
)
    ensures
        ({
            let refused = refused_before_reading(kind, target, lower_name);
            let size = match target {
                Some((_, Some(n), _)) => n as int,
                _ => 0,
            };
            let pdf = kind is ArchiveFile && ends(lower_name, ".pdf"@);
            &&& refused == Some("unsupported"@) <==> target is None
            &&& refused == Some("cover_size_missing"@) <==> target is Some && size == 0
            &&& refused == Some("cover_pdf_bytes_limit"@) <==> pdf && size > 512 * 1024 * 1024
            &&& refused == Some("cover_bytes_limit"@) <==> !(kind is ArchiveFile) && size > 128
                * 1024 * 1024
            &&& refused is None <==> size > 0 && (pdf ==> size <= 512 * 1024 * 1024) && (!(
            kind is ArchiveFile) ==> size <= 128 * 1024 * 1024)
        }),
{
    reveal_strlit("unsupported");
    reveal_strlit("cover_size_missing");
    reveal_strlit("cover_pdf_bytes_limit");
    reveal_strlit("cover_bytes_limit");
    assert("unsupported"@.len() == 11 && "cover_size_missing"@.len() == 18);
    assert("cover_pdf_bytes_limit"@.len() == 21 && "cover_bytes_limit"@.len() == 17);
}

/// The wanted page of a document is tried and three behind it, for a PDF one,
/// as long as the document has them.
pub proof fn law_pages_are_tried_in_order(scan: PageScan)
    ensures
        COVER_PAGE_SCAN_LIMIT == 3,
        COVER_PDF_PAGE_SCAN_LIMIT == 1,
        scan.has_page() <==> scan.undecodable < scan.scan_limit + 1 && scan.first_page
            + scan.undecodable + 1 <= scan.page_count,
{
}

/// The kinds that have a cover are stored under their own names, a stored
/// size counts where it is not negative, and a fingerprint where it is not
/// empty. What a running scan shows comes before what is indexed.
pub proof fn law_stored_books_are_read_as_they_are(
    name: Seq<char>,
    size: Option<i64>,
    fingerprint: Option<String>,
    preview: Option<CoverSourceRow>,
    indexed: Option<CoverSourceRow>,
    preview_images: Seq<FolderImageRow>,
    indexed_images: Seq<FolderImageRow>,
)
    ensures
        cover_kind(name) == Some(RemoteAssetKind::ArchiveFile) <==> name == "ArchiveFile"@,
        cover_kind(name) == Some(RemoteAssetKind::ImageFolder) <==> name == "ImageFolder"@,
        cover_kind(name) == Some(RemoteAssetKind::ImageFile) <==> name == "ImageFile"@,
        cover_kind(name) is None <==> name != "ArchiveFile"@ && name != "ImageFolder"@ && name
            != "ImageFile"@,
        stored_size(size) is Some <==> size is Some && size->0 >= 0,
        stored_size(size) matches Some(n) ==> n == size->0,
        has_fingerprint(fingerprint) <==> fingerprint is Some && (fingerprint->0)@.len() > 0,
        preview is Some ==> preferred_row(preview, indexed) == preview,
        preview is None ==> preferred_row(preview, indexed) == indexed,
        preview_images.len() > 0 ==> preferred_images(preview_images, indexed_images)
            == preview_images,
        preview_images.len() == 0 ==> preferred_images(preview_images, indexed_images)
            == indexed_images,
{
    reveal_strlit("ArchiveFile");
    reveal_strlit("ImageFolder");
    reveal_strlit("ImageFile");
    assert("ArchiveFile"@.len() == 11 && "ImageFolder"@.len() == 11 && "ImageFile"@.len() == 9);
    assert("ArchiveFile"@[0] == 'A' && "ImageFolder"@[0] == 'I');
}

/// The images of a folder are its pages in natural order of their names, each
/// image one page.
pub proof fn law_folder_pages_are_in_natural_order(images: Seq<FolderImageRow>, a: int, b: int)
    requires
        stable_order_of(
            the_order(natural_keys(image_names(images))),
            natural_keys(image_names(images)),
            images.len() as int,
        ),
        0 <= a < b < images.len(),
    ensures
        0 <= nth_image(images, a) < images.len(),
        nth_image(images, a) != nth_image(images, b),
        key_le(
            natural_key(images[nth_image(images, a)].name@),
            natural_key(images[nth_image(images, b)].name@),
        ),
{
    let keys = natural_keys(image_names(images));
    let order = the_order(keys);
    let i = order[a] as int;
    let j = order[b] as int;
    assert(order[a] < images.len() && order[b] < images.len());
    assert(ranked_before(keys, i, j));
    assert(keys[i] == natural_key(images[i].name@));
    assert(keys[j] == natural_key(images[j].name@));
}

/// What stands for a page of a folder is the image that is that page in
/// natural order, with its path, its size and its fingerprint; there is none
/// where there is no such page or its fingerprint is missing.
pub proof fn law_pages_of_folders_are_their_images(
    images: Seq<FolderImageRow>,
    page: int,
    image: Option<CoverImage>,
)
    requires
        is_folder_image(images, page, image),
    ensures
        page >= images.len() ==> image is None,
        page < images.len() ==> (image is Some <==> (images[nth_image(
            images,
            page,
        )].fingerprint matches Some(f) && f@.len() > 0)),
        image matches Some(i) ==> i.path@ == images[nth_image(images, page)].path@ && Some(
            i.fingerprint@,
        ) == (match images[nth_image(images, page)].fingerprint {
            Some(f) => Some(f@),
            None => None,
        }) && i.size == (match images[nth_image(images, page)].size {
            Some(n) => if n >= 0 {
                Some(n as u64)
            } else {
                None
            },
            None => None,
        }),
{
}

/// A window asks for what it has beyond the bytes at hand, and for nothing
/// where those are enough.
pub proof fn law_windows_ask_for_what_is_missing(fetch: WindowFetch)
    ensures
        ({
            let window = fetch.windows@[fetch.tried as int];
            &&& fetch.missing() >= 0
            &&& window >= fetch.buffered ==> fetch.buffered + fetch.missing() == window
            &&& window < fetch.buffered ==> fetch.missing() == 0
        }),
        fetch.wf() <==> fetch.tried <= fetch.windows@.len(),
{
}

} // verus!
