//! Books that are open for reading.

use vstd::prelude::*;
use vstd::string::*;

use crate::number::{dec_u64, decimal};
use crate::session::Sessions;
use crate::text::{cat2, or_empty, text_or_empty};

verus! {

/// What is shown of an open book.
pub struct BookInfo {
    pub handle: u64,
    pub title: String,
    pub page_count: u32,
}

/// A decoded page, four bytes for each pixel.
pub struct PageImage {
    pub rgba: Vec<u8>,
    pub width: u32,
    pub height: u32,
}

/// An entry of a directory.
pub struct DirEntry {
    pub name: String,
    pub path: String,
    pub is_dir: bool,
    pub size: u64,
    /// In seconds; zero where the source does not say.
    pub mtime: i64,
}

/// The namespace of a local book in the page cache.
pub fn local_cache_ns(path: &str) -> (r: String)
    ensures
        r@ == "local|"@ + path@,
{
    cat2("local|", path)
}

/// Opens a book for reading, with what reads its pages.
pub fn register_book<T>(
    books: &mut Sessions<T>,
    reader: T,
    title: String,
    page_count: u32,
) -> (r: BookInfo)
    requires
        old(books).wf(),
        old(books).last_handle() < u64::MAX,
    ensures
        final(books).wf(),
        r.handle == old(books).last_handle() + 1,
        r.title == title,
        r.page_count == page_count,
        final(books).last_handle() == r.handle,
        final(books).held() == old(books).held().insert(r.handle, reader),
        final(books).comes_after(*old(books)),
{
    let handle: u64 = books.register(reader);
    BookInfo { handle, title, page_count }
}

/// What reads the pages of an open book.
pub fn book_reader<T>(books: &Sessions<T>, handle: u64) -> (r: Result<&T, String>)
    requires
        books.wf(),
    ensures
        match r {
            Ok(reader) => books.held().dom().contains(handle) && *reader == books.held()[handle],
            Err(text) => !books.held().dom().contains(handle) && text@ == "无效的书句柄: "@
                + decimal(handle as nat),
        },
{
    match books.get(handle) {
        Some(reader) => Ok(reader),
        None => {
            let number = dec_u64(handle);
            Err(cat2("无效的书句柄: ", number.as_str()))
        },
    }
}

/// Closes a book.
pub fn close_book<T>(books: &mut Sessions<T>, handle: u64)
    requires
        old(books).wf(),
    ensures
        final(books).wf(),
        final(books).last_handle() == old(books).last_handle(),
        final(books).held() == old(books).held().remove(handle),
        final(books).comes_after(*old(books)),
{
    books.close(handle)
}

/// A book that was opened is read under its handle until it is closed,
/// whatever else is closed meanwhile.
pub proof fn law_open_books_are_found<T>(
    before: Sessions<T>,
    opened: Sessions<T>,
    other: Sessions<T>,
    handle: u64,
    reader: T,
    closed: u64,
)
    requires
        before.wf(),
        opened.held() == before.held().insert(handle, reader),
        other.held() == opened.held().remove(closed),
    ensures
        opened.held()[handle] == reader,
        closed != handle ==> other.held().dom().contains(handle) && other.held()[handle] == reader,
        closed == handle ==> !other.held().dom().contains(handle),
{
}

/// Closing a book ends the reading under its handle and no other, closing it
/// again changes nothing, and no book that is opened later gets its handle.
pub proof fn law_closed_handles_stay_closed<T>(
    before: Sessions<T>,
    after: Sessions<T>,
    later: Sessions<T>,
    handle: u64,
    other: u64,
)
    requires
        before.wf(),
        before.held().dom().contains(handle),
        before.held().dom().contains(other),
        handle != other,
        after.held() == before.held().remove(handle),
        after.comes_after(before),
        later.comes_after(after),
    ensures
        !after.held().dom().contains(handle),
        after.held().dom().contains(other) && after.held()[other] == before.held()[other],
        after.held().remove(handle) == after.held(),
        handle != later.last_handle() + 1,
{
    before.law_handles_are_not_given_again(later, handle);
    assert(after.held().remove(handle) =~= after.held());
}

/// The explicit cover of a folder, empty where it has none.
pub fn folder_cover_path(found: &Option<String>) -> (r: String)
    ensures
        r@ == text_or_empty(*found),
{
    or_empty(found)
}

} // verus!
